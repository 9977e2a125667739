//! Shared objects: objects that scripts keep from one run of a movie to
//! the next.
//!
//! A shared object is kept under a name that is made of the host that the
//! movie came from, a path below that host, and the name that the script
//! gave. What is kept is the data of the object: plain objects, arrays,
//! dates, texts and numbers, without the functions.

use crate::avm1::array_object::{
    array_consistent, array_length, array_of, lemma_set_element_is_set_local,
    lemma_set_length, lemma_set_local_keeps_consistent, length_attributes, length_for,
    length_property, set_element_spec, set_length_spec, within, ArrayObject,
};
use crate::text::decimal;
use crate::text::{parse_i32, parse_i32_spec};
use crate::avm1::object::lemma_first_match_some;
use crate::number::lemma_of_int;
use crate::avm1::heap::Heap;
use crate::avm1::object::{
    EntryView, KindView, ObjectKind, ObjectView, PropertyEntry, ScriptObject,
};
use crate::avm1::property::{Attributes, Property, PropertyView};
use crate::number::Number;
use crate::text::str_eq;
use crate::avm1::heap::{delete_spec, ReturnValue};
use crate::value::{values_view, ObjectId, Value, ValueView};
use vstd::prelude::*;
use vstd::string::*;

verus! {

/// What a URL is made of, as far as shared objects are concerned.
#[derive(Debug)]
pub struct MovieUrl {
    /// The scheme, in lower case, without the colon.
    pub scheme: String,
    /// The host, if the URL has one.
    pub host: Option<String>,
    /// The path.
    pub path: String,
}

pub struct UrlView {
    pub scheme: Seq<char>,
    pub host: Option<Seq<char>>,
    pub path: Seq<char>,
}

impl View for MovieUrl {
    type V = UrlView;

    open spec fn view(&self) -> UrlView {
        UrlView {
            scheme: self.scheme@,
            host: match self.host {
                Some(h) => Some(h@),
                None => None,
            },
            path: self.path@,
        }
    }
}

/// The parts of the URL that a text denotes; none where the text denotes no
/// absolute URL.
pub uninterp spec fn parsed_url(input: Seq<char>) -> Option<UrlView>;

/// `url::Url::parse`, and `scheme`, `host_str` and `path` of the URL it
/// returns: the three parts of the URL, or none where the text cannot be
/// parsed as an absolute URL. The parts depend on the text alone.
#[verifier::external_body]
fn parse_movie_url(input: &str) -> (r: Option<MovieUrl>)
    ensures
        match r {
            Some(parts) => parsed_url(input@) == Some(parts@),
            None => parsed_url(input@) is None,
        },
{
    match url::Url::parse(input) {
        Ok(u) => Some(
            MovieUrl {
                scheme: String::from(u.scheme()),
                host: u.host_str().map(String::from),
                path: String::from(u.path()),
            },
        ),
        Err(_) => None,
    }
}

/// A character that the name of a shared object may not hold.
pub open spec fn is_invalid_char(c: char) -> bool {
    c == '~' || c == '%' || c == '&' || c == '\\' || c == ';' || c == ':' || c == '"' || c == '\''
        || c == ',' || c == '<' || c == '>' || c == '?' || c == '#' || c == ' '
}

/// Whether a text holds a character that a name may not hold.
pub open spec fn has_invalid_char(s: Seq<char>) -> bool {
    exists|i: int| 0 <= i < s.len() && is_invalid_char(#[trigger] s[i])
}

/// Whether a text holds a slash.
pub open spec fn has_slash(s: Seq<char>) -> bool {
    exists|i: int| 0 <= i < s.len() && #[trigger] s[i] == '/'
}

/// A text without one slash at its beginning and one at its end.
pub open spec fn strip_slashes(s: Seq<char>) -> Seq<char> {
    let a = if s.len() > 0 && s[0] == '/' {
        s.subrange(1, s.len() as int)
    } else {
        s
    };
    if a.len() > 0 && a.last() == '/' {
        a.drop_last()
    } else {
        a
    }
}

/// A path without the drive letter that it begins with on some systems.
pub open spec fn drop_drive(path: Seq<char>) -> Seq<char> {
    if path.len() >= 3 && (path[0] as u32) < 128 && path[1] == ':' && path[2] == '/' {
        path.subrange(3, path.len() as int)
    } else {
        path
    }
}

/// Whether `prefix` is `path` or leads to it: `path` begins with `prefix`,
/// and goes on with a slash if it goes on.
pub open spec fn is_path_prefix(prefix: Seq<char>, path: Seq<char>) -> bool {
    prefix.len() <= path.len() && path.subrange(0, prefix.len() as int) == prefix && (prefix.len()
        == 0 || path.len() == prefix.len() || path[prefix.len() as int] == '/')
}

/// Whether a segment of a path begins with a dot.
pub open spec fn has_hidden_segment(s: Seq<char>) -> bool {
    (s.len() > 0 && s[0] == '.') || exists|i: int|
        0 <= i < s.len() - 1 && #[trigger] s[i] == '/' && s[i + 1] == '.'
}

/// The host under which the shared objects of a movie are kept, and the
/// path of the movie below it. A movie from a file is kept under
/// `localhost`, and its path counts without a drive letter.
pub open spec fn movie_place(url: UrlView) -> (Seq<char>, Seq<char>) {
    let path = strip_slashes(url.path);
    if url.scheme == "file"@ {
        ("localhost"@, drop_drive(path))
    } else {
        (
            match url.host {
                Some(h) => h,
                None => Seq::empty(),
            },
            path,
        )
    }
}

/// The name under which a shared object is kept, if it may be kept:
///
/// - the name that the script gave holds no character that a name may not
///   hold;
/// - the URL of the movie was parsed;
/// - a secure shared object is asked for by a movie from `https` only;
/// - the local path that the script gave, without a slash at its ends, is
///   not empty before the slashes are taken off, and is the path of the
///   movie or leads to it; without a local path the path of the movie stands
///   in its place;
/// - no segment of the whole name begins with a dot.
///
/// The name is the host, the local path, and the name that the script gave,
/// with slashes between them. A `#` stands before a name that holds a slash.
pub open spec fn full_name_spec(
    name: Seq<char>,
    url: Option<UrlView>,
    local_path: Option<Seq<char>>,
    secure: bool,
) -> Option<Seq<char>> {
    if has_invalid_char(name) {
        None
    } else {
        match url {
            None => None,
            Some(url) => if secure && url.scheme != "https"@ {
                None
            } else {
                let (host, movie_path) = movie_place(url);
                let local: Option<Seq<char>> = match local_path {
                    Some(given) => if given.len() == 0 {
                        None
                    } else if is_path_prefix(strip_slashes(given), movie_path) {
                        Some(strip_slashes(given))
                    } else {
                        None
                    },
                    None => Some(movie_path),
                };
                match local {
                    None => None,
                    Some(local) => {
                        let prefix = if has_slash(name) {
                            "#"@
                        } else {
                            Seq::empty()
                        };
                        let full = host + "/"@ + local + "/"@ + prefix + name;
                        if has_hidden_segment(full) {
                            None
                        } else {
                            Some(full)
                        }
                    },
                }
            },
        }
    }
}

fn is_invalid(c: char) -> (r: bool)
    ensures
        r == is_invalid_char(c),
{
    c == '~' || c == '%' || c == '&' || c == '\\' || c == ';' || c == ':' || c == '"' || c == '\''
        || c == ',' || c == '<' || c == '>' || c == '?' || c == '#' || c == ' '
}

fn holds_invalid_char(s: &str) -> (r: bool)
    ensures
        r == has_invalid_char(s@),
{
    let n: usize = s.unicode_len();
    let mut i: usize = 0;
    while i < n
        invariant
            i <= n,
            n == s@.len(),
            forall|j: int| 0 <= j < i ==> !is_invalid_char(#[trigger] s@[j]),
        decreases n - i,
    {
        if is_invalid(s.get_char(i)) {
            return true;
        }
        i = i + 1;
    }
    false
}

fn holds_slash(s: &str) -> (r: bool)
    ensures
        r == has_slash(s@),
{
    let n: usize = s.unicode_len();
    let mut i: usize = 0;
    while i < n
        invariant
            i <= n,
            n == s@.len(),
            forall|j: int| 0 <= j < i ==> #[trigger] s@[j] != '/',
        decreases n - i,
    {
        if s.get_char(i) == '/' {
            return true;
        }
        i = i + 1;
    }
    false
}

fn without_slashes(s: &str) -> (r: &str)
    ensures
        r@ == strip_slashes(s@),
{
    let n: usize = s.unicode_len();
    let from: usize = if n > 0 && s.get_char(0) == '/' {
        1
    } else {
        0
    };
    let to: usize = if n > from && s.get_char(n - 1) == '/' {
        n - 1
    } else {
        n
    };
    let r = s.substring_char(from, to);
    proof {
        let a = if s@.len() > 0 && s@[0] == '/' {
            s@.subrange(1, s@.len() as int)
        } else {
            s@
        };
        assert(a =~= s@.subrange(from as int, n as int));
        assert(r@ =~= strip_slashes(s@));
    }
    r
}

fn without_drive(path: &str) -> (r: &str)
    ensures
        r@ == drop_drive(path@),
{
    let n: usize = path.unicode_len();
    if n >= 3 && (path.get_char(0) as u32) < 128 && path.get_char(1) == ':' && path.get_char(2)
        == '/' {
        path.substring_char(3, n)
    } else {
        assert(path@.subrange(0, n as int) =~= path@);
        path.substring_char(0, n)
    }
}

fn leads_to(prefix: &str, path: &str) -> (r: bool)
    ensures
        r == is_path_prefix(prefix@, path@),
{
    let n: usize = prefix.unicode_len();
    let m: usize = path.unicode_len();
    if n > m {
        return false;
    }
    let mut i: usize = 0;
    while i < n
        invariant
            i <= n <= m,
            n == prefix@.len(),
            m == path@.len(),
            forall|j: int| 0 <= j < i ==> prefix@[j] == path@[j],
        decreases n - i,
    {
        if prefix.get_char(i) != path.get_char(i) {
            assert(path@.subrange(0, n as int)[i as int] != prefix@[i as int]);
            return false;
        }
        i = i + 1;
    }
    assert(path@.subrange(0, n as int) =~= prefix@);
    n == 0 || m == n || path.get_char(n) == '/'
}

fn holds_hidden_segment(s: &str) -> (r: bool)
    ensures
        r == has_hidden_segment(s@),
{
    let n: usize = s.unicode_len();
    if n == 0 {
        return false;
    }
    if s.get_char(0) == '.' {
        return true;
    }
    let mut i: usize = 0;
    while i < n - 1
        invariant
            i <= n - 1,
            n == s@.len(),
            n > 0,
            forall|j: int| 0 <= j < i ==> !(#[trigger] s@[j] == '/' && s@[j + 1] == '.'),
        decreases n - i,
    {
        if s.get_char(i) == '/' && s.get_char(i + 1) == '.' {
            return true;
        }
        i = i + 1;
    }
    false
}

/// The name under which a shared object is kept, from the parts of the URL
/// of the movie.
pub fn full_name(name: &str, url: Option<&MovieUrl>, local_path: Option<&str>, secure: bool) -> (r:
    Option<String>)
    ensures
        match r {
            Some(full) => full_name_spec(
                name@,
                match url {
                    Some(u) => Some(u@),
                    None => None,
                },
                match local_path {
                    Some(p) => Some(p@),
                    None => None,
                },
                secure,
            ) == Some(full@),
            None => full_name_spec(
                name@,
                match url {
                    Some(u) => Some(u@),
                    None => None,
                },
                match local_path {
                    Some(p) => Some(p@),
                    None => None,
                },
                secure,
            ) is None,
        },
{
    if holds_invalid_char(name) {
        return None;
    }
    let url = match url {
        Some(u) => u,
        None => {
            return None;
        },
    };
    if secure && !str_eq(url.scheme.as_str(), "https") {
        return None;
    }
    let stripped = without_slashes(url.path.as_str());
    let from_file: bool = str_eq(url.scheme.as_str(), "file");
    let movie_path: &str = if from_file {
        without_drive(stripped)
    } else {
        stripped
    };
    let mut full = String::new();
    if from_file {
        full.append("localhost");
    } else {
        match &url.host {
            Some(h) => {
                full.append(h.as_str());
            },
            None => {},
        }
    }
    let ghost host = full@;
    assert(host =~= movie_place(url@).0);
    let local: &str = match local_path {
        Some(given) => {
            if given.unicode_len() == 0 {
                return None;
            }
            let trimmed = without_slashes(given);
            if !leads_to(trimmed, movie_path) {
                return None;
            }
            trimmed
        },
        None => movie_path,
    };
    full.append("/");
    full.append(local);
    full.append("/");
    if holds_slash(name) {
        full.append("#");
    }
    full.append(name);
    proof {
        let prefix = if has_slash(name@) {
            "#"@
        } else {
            Seq::empty()
        };
        assert(full@ =~= host + "/"@ + local@ + "/"@ + prefix + name@);
    }
    if holds_hidden_segment(full.as_str()) {
        return None;
    }
    Some(full)
}

/// The name under which a shared object is kept: the name that the script
/// gave, placed below the host and the path that the URL of the movie
/// gives. A movie without a URL counts as the file `file://localhost`.
pub fn shared_object_name(
    name: &str,
    movie_url: Option<&str>,
    local_path: Option<&str>,
    secure: bool,
) -> (r: Option<String>)
    ensures
        match r {
            Some(full) => full_name_spec(
                name@,
                parsed_url(
                    match movie_url {
                        Some(u) => u@,
                        None => "file://localhost"@,
                    },
                ),
                match local_path {
                    Some(p) => Some(p@),
                    None => None,
                },
                secure,
            ) == Some(full@),
            None => full_name_spec(
                name@,
                parsed_url(
                    match movie_url {
                        Some(u) => u@,
                        None => "file://localhost"@,
                    },
                ),
                match local_path {
                    Some(p) => Some(p@),
                    None => None,
                },
                secure,
            ) is None,
        },
{
    let parts = match movie_url {
        Some(u) => parse_movie_url(u),
        None => parse_movie_url("file://localhost"),
    };
    match parts {
        Some(u) => full_name(name, Some(&u), local_path, secure),
        None => full_name(name, None, local_path, secure),
    }
}


/// How deep an object graph is followed when it is kept or restored. Data
/// that are nested deeper are not kept in part: they are reported as too
/// deep, and nothing of them is kept.
pub const MAX_PERSIST_DEPTH: u32 = 256;

/// The data of a value: what is kept of it.
pub enum Tree {
    Undefined,
    Null,
    Bool(bool),
    Number(Number),
    String(Seq<char>),
    /// A plain object: its properties.
    Object(Seq<(Seq<char>, Tree)>),
    /// An array: its length and its properties, among them its elements.
    Array(int, Seq<(Seq<char>, Tree)>),
    /// A date, as milliseconds since the epoch.
    Date(Number),
    /// An XML node, as its text.
    Xml(Seq<char>),
}

/// What is kept of a value.
pub enum Kept {
    /// These data.
    Data(Tree),
    /// Nothing: the value is left out.
    Nothing,
    /// The value is nested deeper than the walk goes: it cannot be kept.
    TooDeep,
}

/// What is kept of a value: a primitive value as it is; of an object, the
/// properties that enumeration shows and that hold a value of which
/// something is kept. Nothing is kept of a function, of an object that is
/// not there, and of a date without a valid time. The walk follows at most
/// `depth` objects, one inside the other; where an object lies deeper, the
/// whole value is too deep.
pub open spec fn persisted(heap: Seq<ObjectView>, v: ValueView, depth: nat) -> Kept
    decreases depth, 0nat,
{
    match v {
        ValueView::Undefined => Kept::Data(Tree::Undefined),
        ValueView::Null => Kept::Data(Tree::Null),
        ValueView::Bool(b) => Kept::Data(Tree::Bool(b)),
        ValueView::Number(n) => Kept::Data(Tree::Number(n)),
        ValueView::String(s) => Kept::Data(Tree::String(s)),
        ValueView::Object(o) => if o >= heap.len() {
            Kept::Nothing
        } else {
            let object = heap[o as int];
            match object.kind {
                KindView::Function => Kept::Nothing,
                KindView::Date(millis) => if millis.is_finite_spec() {
                    Kept::Data(Tree::Date(millis))
                } else {
                    Kept::Nothing
                },
                KindView::Xml(text) => Kept::Data(Tree::Xml(text)),
                KindView::Array => if depth == 0 {
                    Kept::TooDeep
                } else {
                    match persisted_props(
                        heap,
                        object.properties,
                        (depth - 1) as nat,
                        object.properties.len(),
                    ) {
                        Some(props) => Kept::Data(Tree::Array(array_length(object), props)),
                        None => Kept::TooDeep,
                    }
                },
                _ => if depth == 0 {
                    Kept::TooDeep
                } else {
                    match persisted_props(
                        heap,
                        object.properties,
                        (depth - 1) as nat,
                        object.properties.len(),
                    ) {
                        Some(props) => Kept::Data(Tree::Object(props)),
                        None => Kept::TooDeep,
                    }
                },
            }
        },
    }
}

/// What is kept of the first `upto` properties of an object, in their
/// order; none where one of them holds a value that is too deep.
pub open spec fn persisted_props(
    heap: Seq<ObjectView>,
    props: Seq<EntryView>,
    depth: nat,
    upto: nat,
) -> Option<Seq<(Seq<char>, Tree)>>
    decreases depth, upto,
{
    if upto == 0 {
        Some(Seq::empty())
    } else {
        match persisted_props(heap, props, depth, (upto - 1) as nat) {
            None => None,
            Some(before) => match props[upto - 1].property {
                PropertyView::Stored { value, attributes } => if attributes.dont_enum {
                    Some(before)
                } else {
                    match persisted(heap, value, depth) {
                        Kept::Data(t) => Some(before.push((props[upto - 1].name, t))),
                        Kept::Nothing => Some(before),
                        Kept::TooDeep => None,
                    }
                },
                _ => Some(before),
            },
        }
    }
}

/// Whether the length of every array of a heap is consistent with its
/// elements.
pub open spec fn arrays_consistent(heap: Seq<ObjectView>) -> bool {
    forall|i: int|
        0 <= i < heap.len() && (#[trigger] heap[i]).kind is Array ==> array_consistent(heap[i])
}

/// What is kept of the properties of an object below a length names no
/// element at or beyond the length.
proof fn lemma_kept_names_within(
    heap: Seq<ObjectView>,
    props: Seq<EntryView>,
    depth: nat,
    upto: nat,
    n: int,
)
    requires
        upto <= props.len(),
        forall|j: int| 0 <= j < props.len() ==> within(n)(#[trigger] props[j]),
        persisted_props(heap, props, depth, upto) is Some,
    ensures
        forall|k: int|
            0 <= k < persisted_props(heap, props, depth, upto).unwrap().len() ==> !(parse_i32_spec(
                (#[trigger] persisted_props(heap, props, depth, upto).unwrap()[k]).0,
            ) matches Some(i) && i >= n),
    decreases upto,
{
    if upto > 0 {
        lemma_kept_names_within(heap, props, depth, (upto - 1) as nat, n);
        assert(within(n)(props[upto - 1]));
    }
}

/// Once a property is too deep, so are the properties as a whole.
proof fn lemma_too_deep_stays(
    heap: Seq<ObjectView>,
    props: Seq<EntryView>,
    depth: nat,
    upto: nat,
    all: nat,
)
    requires
        upto <= all,
        persisted_props(heap, props, depth, upto) is None,
    ensures
        persisted_props(heap, props, depth, all) is None,
    decreases all,
{
    if upto < all {
        lemma_too_deep_stays(heap, props, depth, upto, (all - 1) as nat);
    }
}

/// What is kept of a value does not depend on how deep the walk may go,
/// once it may go deep enough: a limit either reports the value as too deep
/// or cuts nothing from it.
pub proof fn lemma_limit_cuts_nothing(heap: Seq<ObjectView>, v: ValueView, depth: nat, more: nat)
    requires
        depth <= more,
        !(persisted(heap, v, depth) is TooDeep),
    ensures
        persisted(heap, v, more) == persisted(heap, v, depth),
    decreases depth, 0nat,
{
    match v {
        ValueView::Object(o) => {
            if o < heap.len() {
                let object = heap[o as int];
                match object.kind {
                    KindView::Function => {},
                    KindView::Date(_) => {},
                    KindView::Xml(_) => {},
                    _ => {
                        lemma_limit_cuts_no_property(
                            heap,
                            object.properties,
                            (depth - 1) as nat,
                            (more - 1) as nat,
                            object.properties.len(),
                        );
                    },
                }
            }
        },
        _ => {},
    }
}

proof fn lemma_limit_cuts_no_property(
    heap: Seq<ObjectView>,
    props: Seq<EntryView>,
    depth: nat,
    more: nat,
    upto: nat,
)
    requires
        depth <= more,
        persisted_props(heap, props, depth, upto) is Some,
    ensures
        persisted_props(heap, props, more, upto) == persisted_props(heap, props, depth, upto),
    decreases depth, upto + 1,
{
    if upto > 0 {
        lemma_limit_cuts_no_property(heap, props, depth, more, (upto - 1) as nat);
        match props[upto - 1].property {
            PropertyView::Stored { value, attributes } => {
                if !attributes.dont_enum {
                    lemma_limit_cuts_nothing(heap, value, depth, more);
                }
            },
            _ => {},
        }
    }
}

/// The same data with the properties of every object in reverse order.
pub open spec fn mirror(t: Tree) -> Tree
    decreases t,
{
    match t {
        Tree::Object(props) => Tree::Object(
            Seq::new(
                props.len(),
                |i: int|
                    if 0 <= i < props.len() {
                        (props[props.len() - 1 - i].0, mirror(props[props.len() - 1 - i].1))
                    } else {
                        (Seq::empty(), Tree::Undefined)
                    },
            ),
        ),
        Tree::Array(length, props) => Tree::Array(
            length,
            Seq::new(
                props.len(),
                |i: int|
                    if 0 <= i < props.len() {
                        (props[props.len() - 1 - i].0, mirror(props[props.len() - 1 - i].1))
                    } else {
                        (Seq::empty(), Tree::Undefined)
                    },
            ),
        ),
        _ => t,
    }
}

/// The data as it is kept: reversed where it is written out, and as it is
/// where it is read back.
pub open spec fn oriented(t: Tree, reverse: bool) -> Tree {
    if reverse {
        mirror(t)
    } else {
        t
    }
}

/// Reversing twice gives the data back.
pub proof fn lemma_mirror_twice(t: Tree)
    ensures
        mirror(mirror(t)) == t,
    decreases t,
{
    match t {
        Tree::Object(props) => {
            let once = mirror(t)->Object_0;
            let twice = mirror(mirror(t))->Object_0;
            assert forall|i: int| 0 <= i < props.len() implies twice[i] == props[i] by {
                lemma_mirror_twice(props[i].1);
                assert(once[props.len() - 1 - i].1 == mirror(props[i].1));
            }
            assert(twice =~= props);
        },
        Tree::Array(length, props) => {
            let once = mirror(t)->Array_1;
            let twice = mirror(mirror(t))->Array_1;
            assert forall|i: int| 0 <= i < props.len() implies twice[i] == props[i] by {
                lemma_mirror_twice(props[i].1);
                assert(once[props.len() - 1 - i].1 == mirror(props[i].1));
            }
            assert(twice =~= props);
        },
        _ => {},
    }
}


/// Whether a heap holds all objects of another, each at its place.
pub open spec fn extends(h: Seq<ObjectView>, base: Seq<ObjectView>) -> bool {
    base.len() <= h.len() && forall|i: int| 0 <= i < base.len() ==> #[trigger] h[i] == base[i]
}

/// Whether a value has the given data in a heap, and in every heap that
/// holds more objects besides.
pub open spec fn holds_tree(heap: Seq<ObjectView>, v: ValueView, depth: nat, t: Tree) -> bool {
    forall|h: Seq<ObjectView>| #[trigger]
        extends(h, heap) ==> persisted(h, v, depth) == Kept::Data(t)
}

/// The properties of data, each as it is kept.
pub open spec fn each_oriented(props: Seq<(Seq<char>, Tree)>, reverse: bool) -> Seq<
    (Seq<char>, Tree),
> {
    Seq::new(props.len(), |i: int| (props[i].0, oriented(props[i].1, reverse)))
}

/// The properties of data as they are kept: in reverse order where they are
/// written out.
pub open spec fn oriented_props(props: Seq<(Seq<char>, Tree)>, reverse: bool) -> Seq<
    (Seq<char>, Tree),
> {
    oriented(Tree::Object(props), reverse)->Object_0
}

/// Whether properties are plain stored values with the given names and
/// data.
pub open spec fn carries(
    heap: Seq<ObjectView>,
    entries: Seq<EntryView>,
    depth: nat,
    trees: Seq<(Seq<char>, Tree)>,
) -> bool {
    entries.len() == trees.len() && forall|i: int|
        0 <= i < entries.len() ==> (#[trigger] entries[i]).name == trees[i].0 && (
        entries[i].property matches PropertyView::Stored { value, attributes } && attributes
            == Attributes::empty_spec() && holds_tree(heap, value, depth, trees[i].1))
}

/// The views of a list of properties.
pub open spec fn entry_views(entries: Seq<PropertyEntry>) -> Seq<EntryView> {
    Seq::new(entries.len(), |i: int| entries[i]@)
}

proof fn lemma_extends_transitive(a: Seq<ObjectView>, b: Seq<ObjectView>, c: Seq<ObjectView>)
    requires
        extends(a, b),
        extends(b, c),
    ensures
        extends(a, c),
{
    assert forall|i: int| 0 <= i < c.len() implies #[trigger] a[i] == c[i] by {
        assert(b[i] == c[i]);
        assert(a[i] == b[i]);
    }
}

proof fn lemma_holds_in_more(
    heap: Seq<ObjectView>,
    more: Seq<ObjectView>,
    v: ValueView,
    depth: nat,
    t: Tree,
)
    requires
        holds_tree(heap, v, depth, t),
        extends(more, heap),
    ensures
        holds_tree(more, v, depth, t),
{
    assert forall|h: Seq<ObjectView>| #[trigger] extends(h, more) implies persisted(h, v, depth)
        == Kept::Data(t) by {
        lemma_extends_transitive(h, more, heap);
    }
}

proof fn lemma_carries_in_more(
    heap: Seq<ObjectView>,
    more: Seq<ObjectView>,
    entries: Seq<EntryView>,
    depth: nat,
    trees: Seq<(Seq<char>, Tree)>,
)
    requires
        carries(heap, entries, depth, trees),
        extends(more, heap),
    ensures
        carries(more, entries, depth, trees),
{
    assert forall|i: int| 0 <= i < entries.len() implies (#[trigger] entries[i]).name
        == trees[i].0 && (entries[i].property matches PropertyView::Stored { value, attributes }
        && attributes == Attributes::empty_spec() && holds_tree(more, value, depth, trees[i].1)) by {
        match entries[i].property {
            PropertyView::Stored { value, attributes } => {
                lemma_holds_in_more(heap, more, value, depth, trees[i].1);
            },
            _ => {},
        }
    }
}

/// The data of an object that was made of copies is the data that the
/// copies carry. A property in front of the copies that enumeration does not
/// show adds nothing.
proof fn lemma_props_of_copies(
    h: Seq<ObjectView>,
    base: Seq<ObjectView>,
    props: Seq<EntryView>,
    skip: nat,
    depth: nat,
    trees: Seq<(Seq<char>, Tree)>,
    upto: nat,
)
    requires
        skip <= 1,
        props.len() == trees.len() + skip,
        skip == 1 ==> props[0].property.attributes().dont_enum,
        carries(base, props.skip(skip as int), depth, trees),
        extends(h, base),
        upto <= trees.len(),
    ensures
        persisted_props(h, props, depth, upto + skip) == Some(trees.take(upto as int)),
    decreases upto,
{
    if upto == 0 {
        assert(trees.take(0) =~= Seq::empty());
        if skip == 1 {
            assert(persisted_props(h, props, depth, 0) == Some(Seq::<(Seq<char>, Tree)>::empty()));
        }
    } else {
        lemma_props_of_copies(h, base, props, skip, depth, trees, (upto - 1) as nat);
        let e = props.skip(skip as int)[upto - 1];
        assert(e == props[upto - 1 + skip]);
        assert(trees.take(upto as int) =~= trees.take(upto - 1).push(trees[upto - 1]));
    }
}

/// The entries of a list in reverse order.
fn reverse_entries(entries: Vec<PropertyEntry>) -> (r: Vec<PropertyEntry>)
    ensures
        r@.len() == entries@.len(),
        forall|i: int| 0 <= i < r@.len() ==> #[trigger] r@[i] == entries@[entries@.len() - 1 - i],
{
    let mut rest = entries;
    let mut out: Vec<PropertyEntry> = Vec::new();
    while rest.len() > 0
        invariant
            rest@.len() + out@.len() == entries@.len(),
            forall|i: int| 0 <= i < rest@.len() ==> #[trigger] rest@[i] == entries@[i],
            forall|i: int|
                0 <= i < out@.len() ==> #[trigger] out@[i] == entries@[entries@.len() - 1 - i],
        decreases rest@.len(),
    {
        let e = rest.pop().unwrap();
        out.push(e);
    }
    out
}

/// Copies the data of the properties of an object into another heap.
/// Returns the copies; none where a property holds a value that is too
/// deep.
fn copy_props(
    src: &Heap,
    object: &ScriptObject,
    dst: &mut Heap,
    depth: u32,
    reverse: bool,
    object_proto: Option<ObjectId>,
    array_proto: Option<ObjectId>,
) -> (r: Option<Vec<PropertyEntry>>)
    ensures
        extends(final(dst)@, old(dst)@),
        match persisted_props(src@, object@.properties, depth as nat, object@.properties.len()) {
            Some(props) => r matches Some(entries) && carries(
                final(dst)@,
                entry_views(entries@),
                depth as nat,
                oriented_props(props, reverse),
            ),
            None => r is None,
        },
        arrays_consistent(src@) && arrays_consistent(old(dst)@) ==> arrays_consistent(final(dst)@),
    decreases depth, 1nat,
{
    let mut copies: Vec<PropertyEntry> = Vec::new();
    let ghost mut trees: Seq<(Seq<char>, Tree)> = Seq::empty();
    let mut i: usize = 0;
    proof {
        assert(each_oriented(
            persisted_props(src@, object@.properties, depth as nat, 0).unwrap(),
            reverse,
        ) =~= trees);
    }
    while i < object.properties.len()
        invariant
            i <= object.properties@.len(),
            extends(dst@, old(dst)@),
            persisted_props(src@, object@.properties, depth as nat, i as nat) is Some,
            trees == each_oriented(
                persisted_props(src@, object@.properties, depth as nat, i as nat).unwrap(),
                reverse,
            ),
            carries(dst@, entry_views(copies@), depth as nat, trees),
            arrays_consistent(src@) && arrays_consistent(old(dst)@) ==> arrays_consistent(dst@),
        decreases object.properties@.len() - i,
    {
        let ghost before = dst@;
        let ghost kept = persisted_props(src@, object@.properties, depth as nat, i as nat).unwrap();
        let entry = &object.properties[i];
        assert(object@.properties[i as int] == entry@);
        match &entry.property {
            Property::Stored { value, attributes } => {
                if !attributes.dont_enum {
                    match copy_value(src, value, dst, depth, reverse, object_proto, array_proto) {
                        Copied::TooDeep => {
                            proof {
                                lemma_extends_transitive(dst@, before, old(dst)@);
                                lemma_too_deep_stays(
                                    src@,
                                    object@.properties,
                                    depth as nat,
                                    (i + 1) as nat,
                                    object@.properties.len(),
                                );
                            }
                            return None;
                        },
                        Copied::Value(c) => {
                            let ghost t = persisted(src@, value@, depth as nat)->Data_0;
                            proof {
                                lemma_extends_transitive(dst@, before, old(dst)@);
                                lemma_carries_in_more(
                                    before,
                                    dst@,
                                    entry_views(copies@),
                                    depth as nat,
                                    trees,
                                );
                            }
                            let ghost earlier = entry_views(copies@);
                            copies.push(
                                PropertyEntry {
                                    name: entry.name.clone(),
                                    property: Property::Stored {
                                        value: c,
                                        attributes: Attributes::empty(),
                                    },
                                },
                            );
                            proof {
                                let grown = trees.push((entry@.name, oriented(t, reverse)));
                                assert(entry_views(copies@) =~= earlier.push(copies@.last()@));
                                assert(each_oriented(kept.push((entry@.name, t)), reverse)
                                    =~= grown);
                                trees = grown;
                            }
                        },
                        Copied::Nothing => {},
                    }
                }
            },
            Property::Virtual { .. } => {},
        }
        i = i + 1;
    }
    let ghost all = persisted_props(
        src@,
        object@.properties,
        depth as nat,
        object@.properties.len(),
    ).unwrap();
    if reverse {
        let ghost forward = entry_views(copies@);
        let reversed = reverse_entries(copies);
        proof {
            let want = oriented_props(all, true);
            assert(want.len() == all.len());
            assert forall|k: int| 0 <= k < reversed@.len() implies (#[trigger] entry_views(
                reversed@,
            )[k]).name == want[k].0 && (entry_views(reversed@)[k].property matches PropertyView::Stored {
                value,
                attributes,
            } && attributes == Attributes::empty_spec() && holds_tree(
                dst@,
                value,
                depth as nat,
                want[k].1,
            )) by {
                let j = reversed@.len() - 1 - k;
                assert(entry_views(reversed@)[k] == forward[j]);
                assert(trees[j] == (all[j].0, mirror(all[j].1)));
            }
        }
        Some(reversed)
    } else {
        proof {
            assert(trees =~= all);
        }
        Some(copies)
    }
}

/// What a copy gave.
#[derive(Debug)]
pub enum Copied {
    /// The copy.
    Value(Value),
    /// Nothing is kept of the value.
    Nothing,
    /// The value is nested too deep: it was not copied.
    TooDeep,
}

/// Copies the data of a value into another heap: a primitive value as it
/// is, and an object as a new object that holds copies of the properties
/// that are kept. With `reverse` the properties of every object come in
/// reverse order. New plain objects and dates get `object_proto` as their
/// prototype, new arrays `array_proto`.
///
/// Says that nothing is kept of the value, or that it is nested deeper than
/// `depth` objects; in both cases there is no copy.
pub fn copy_value(
    src: &Heap,
    value: &Value,
    dst: &mut Heap,
    depth: u32,
    reverse: bool,
    object_proto: Option<ObjectId>,
    array_proto: Option<ObjectId>,
) -> (r: Copied)
    ensures
        extends(final(dst)@, old(dst)@),
        match persisted(src@, value@, depth as nat) {
            Kept::Data(t) => r matches Copied::Value(c) && holds_tree(
                final(dst)@,
                c@,
                depth as nat,
                oriented(t, reverse),
            ),
            Kept::Nothing => r is Nothing && final(dst)@ == old(dst)@,
            Kept::TooDeep => r is TooDeep,
        },
        arrays_consistent(src@) && arrays_consistent(old(dst)@) ==> arrays_consistent(final(dst)@),
    decreases depth, 0nat,
{
    proof {
        assert(extends(dst@, dst@));
    }
    match value {
        Value::Object(o) => {
            if *o >= src.objects.len() {
                return Copied::Nothing;
            }
            let object = &src.objects[*o];
            assert(object@ == src@[*o as int]);
            match &object.kind {
                ObjectKind::Function => Copied::Nothing,
                ObjectKind::Date(millis) => {
                    if !millis.is_finite() {
                        return Copied::Nothing;
                    }
                    let id = dst.allocate(ScriptObject::new(object_proto, ObjectKind::Date(*millis)));
                    Copied::Value(Value::Object(id))
                },
                ObjectKind::Xml(text) => {
                    let id = dst.allocate(
                        ScriptObject::new(object_proto, ObjectKind::Xml(text.clone())),
                    );
                    Copied::Value(Value::Object(id))
                },
                ObjectKind::Array => {
                    if depth == 0 {
                        return Copied::TooDeep;
                    }
                    let length: i32 = object.length();
                    let mut entries = match copy_props(
                        src,
                        object,
                        dst,
                        depth - 1,
                        reverse,
                        object_proto,
                        array_proto,
                    ) {
                        Some(entries) => entries,
                        None => {
                            return Copied::TooDeep;
                        },
                    };
                    let ghost copies = entry_views(entries@);
                    let ghost filled = dst@;
                    let ghost trees = oriented_props(
                        persisted_props(
                            src@,
                            object@.properties,
                            (depth - 1) as nat,
                            object@.properties.len(),
                        ).unwrap(),
                        reverse,
                    );
                    entries.insert(
                        0,
                        PropertyEntry {
                            name: String::from_str("length"),
                            property: Property::Stored {
                                value: Value::from_i32(length),
                                attributes: Attributes {
                                    dont_enum: true,
                                    dont_delete: true,
                                    read_only: false,
                                },
                            },
                        },
                    );
                    let made = ScriptObject {
                        properties: entries,
                        proto: array_proto,
                        kind: ObjectKind::Array,
                        watchers: Vec::new(),
                    };
                    let ghost view = made@;
                    let id = dst.allocate(made);
                    proof {
                        assert(view.properties.skip(1) =~= copies);
                        lemma_first_match_some(view.names(), "length"@, true, 0);
                        lemma_of_int(length as int);
                        assert(array_length(view) == length);
                        if arrays_consistent(src@) && arrays_consistent(old(dst)@) {
                            let kept = persisted_props(
                                src@,
                                object@.properties,
                                (depth - 1) as nat,
                                object@.properties.len(),
                            ).unwrap();
                            assert(array_consistent(object@));
                            lemma_kept_names_within(
                                src@,
                                object@.properties,
                                (depth - 1) as nat,
                                object@.properties.len(),
                                length as int,
                            );
                            crate::avm1::array_object::lemma_length_is_no_index();
                            assert forall|k: int| 0 <= k < view.properties.len() implies within(
                                length as int,
                            )(#[trigger] view.properties[k]) by {
                                if k > 0 {
                                    assert(view.properties[k] == copies[k - 1]);
                                    assert(copies[k - 1].name == trees[k - 1].0);
                                    if reverse {
                                        assert(trees[k - 1].0 == kept[kept.len() - 1 - (k - 1)].0);
                                    } else {
                                        assert(trees[k - 1].0 == kept[k - 1].0);
                                    }
                                }
                            }
                            assert(array_consistent(view));
                            assert forall|i: int|
                                0 <= i < dst@.len() && (#[trigger] dst@[i]).kind
                                    is Array implies array_consistent(dst@[i]) by {
                                if i < filled.len() {
                                    assert(dst@[i] == filled[i]);
                                }
                            }
                        }
                        assert forall|h: Seq<ObjectView>| #[trigger] extends(h, dst@) implies persisted(
                            h,
                            ValueView::Object(id),
                            depth as nat,
                        ) == Kept::Data(
                            oriented(persisted(src@, value@, depth as nat)->Data_0, reverse),
                        ) by {
                            assert(h[id as int] == view);
                            lemma_extends_transitive(h, dst@, filled);
                            lemma_props_of_copies(
                                h,
                                filled,
                                view.properties,
                                1,
                                (depth - 1) as nat,
                                trees,
                                trees.len(),
                            );
                            assert(trees.take(trees.len() as int) =~= trees);
                        }
                    }
                    Copied::Value(Value::Object(id))
                },
                _ => {
                    if depth == 0 {
                        return Copied::TooDeep;
                    }
                    let entries = match copy_props(
                        src,
                        object,
                        dst,
                        depth - 1,
                        reverse,
                        object_proto,
                        array_proto,
                    ) {
                        Some(entries) => entries,
                        None => {
                            return Copied::TooDeep;
                        },
                    };
                    let ghost filled = dst@;
                    let ghost trees = oriented_props(
                        persisted_props(
                            src@,
                            object@.properties,
                            (depth - 1) as nat,
                            object@.properties.len(),
                        ).unwrap(),
                        reverse,
                    );
                    let made = ScriptObject {
                        properties: entries,
                        proto: object_proto,
                        kind: ObjectKind::Object,
                        watchers: Vec::new(),
                    };
                    let ghost view = made@;
                    let id = dst.allocate(made);
                    proof {
                        assert(view.properties.skip(0) =~= view.properties);
                        assert forall|h: Seq<ObjectView>| #[trigger] extends(h, dst@) implies persisted(
                            h,
                            ValueView::Object(id),
                            depth as nat,
                        ) == Kept::Data(
                            oriented(persisted(src@, value@, depth as nat)->Data_0, reverse),
                        ) by {
                            assert(h[id as int] == view);
                            lemma_extends_transitive(h, dst@, filled);
                            lemma_props_of_copies(
                                h,
                                filled,
                                view.properties,
                                0,
                                (depth - 1) as nat,
                                trees,
                                trees.len(),
                            );
                            assert(trees.take(trees.len() as int) =~= trees);
                        }
                    }
                    Copied::Value(Value::Object(id))
                },
            }
        },
        _ => Copied::Value(value.duplicate()),
    }
}


/// Writes out the data of a value: copies it into the heap of what is
/// kept, with the properties of every object in reverse order. Says that
/// nothing is kept of the value, or that the value is nested too deep to be
/// written out; then there is no copy.
pub fn serialize_value(heap: &Heap, elem: &Value, kept: &mut Heap) -> (r: Copied)
    ensures
        extends(final(kept)@, old(kept)@),
        match persisted(heap@, elem@, MAX_PERSIST_DEPTH as nat) {
            Kept::Data(t) => r matches Copied::Value(c) && holds_tree(
                final(kept)@,
                c@,
                MAX_PERSIST_DEPTH as nat,
                mirror(t),
            ),
            Kept::Nothing => r is Nothing && final(kept)@ == old(kept)@,
            Kept::TooDeep => r is TooDeep,
        },
        arrays_consistent(heap@) && arrays_consistent(old(kept)@) ==> arrays_consistent(
            final(kept)@,
        ),
{
    copy_value(heap, elem, kept, MAX_PERSIST_DEPTH, true, None, None)
}

/// Reads back the data of a value that was kept: copies it into the heap
/// of the machine, with the prototypes that plain objects and arrays have
/// there. Where nothing is kept of the value, the result is `Undefined`;
/// where the value is nested too deep to be read back, there is none.
pub fn deserialize_value(
    kept: &Heap,
    val: &Value,
    heap: &mut Heap,
    object_proto: ObjectId,
    array_proto: ObjectId,
) -> (r: Option<Value>)
    ensures
        extends(final(heap)@, old(heap)@),
        match persisted(kept@, val@, MAX_PERSIST_DEPTH as nat) {
            Kept::Data(t) => r matches Some(v) && holds_tree(
                final(heap)@,
                v@,
                MAX_PERSIST_DEPTH as nat,
                t,
            ),
            Kept::Nothing => r matches Some(v) && v@ == ValueView::Undefined && final(heap)@
                == old(heap)@,
            Kept::TooDeep => r is None,
        },
        arrays_consistent(kept@) && arrays_consistent(old(heap)@) ==> arrays_consistent(
            final(heap)@,
        ),
{
    match copy_value(
        kept,
        val,
        heap,
        MAX_PERSIST_DEPTH,
        false,
        Some(object_proto),
        Some(array_proto),
    ) {
        Copied::Value(v) => Some(v),
        Copied::Nothing => Some(Value::Undefined),
        Copied::TooDeep => None,
    }
}

/// What was written out and read back is the data that was there, with the
/// properties of every object in reverse order: the same names with the same
/// data under them, the same length of every array, and every element under
/// its index. Functions are not among it. Reversing once more gives the data
/// in its first order. What was written out is never too deep to be read
/// back, and nothing of it is cut: the data are all of the value.
pub proof fn lemma_round_trip(
    heap: Seq<ObjectView>,
    value: ValueView,
    kept: Seq<ObjectView>,
    copy: ValueView,
    restored_heap: Seq<ObjectView>,
    restored: ValueView,
    depth: nat,
    t: Tree,
)
    requires
        persisted(heap, value, depth) == Kept::Data(t),
        holds_tree(kept, copy, depth, mirror(t)),
        persisted(kept, copy, depth) matches Kept::Data(read) ==> holds_tree(
            restored_heap,
            restored,
            depth,
            read,
        ),
    ensures
        persisted(kept, copy, depth) == Kept::Data(mirror(t)),
        persisted(restored_heap, restored, depth) == Kept::Data(mirror(t)),
        mirror(mirror(t)) == t,
{
    assert(extends(kept, kept));
    assert(extends(restored_heap, restored_heap));
    lemma_mirror_twice(t);
}

/// A shared object that is in use, and the name it is kept under.
#[derive(Debug)]
pub struct SharedEntry {
    pub name: String,
    pub object: ObjectId,
}

/// The shared objects that are in use.
#[derive(Debug)]
pub struct SharedObjects {
    pub entries: Vec<SharedEntry>,
}

impl SharedObjects {
    /// The names of the shared objects, in the order in which they came
    /// into use.
    pub open spec fn names(&self) -> Seq<Seq<char>> {
        Seq::new(self.entries@.len(), |i: int| self.entries@[i].name@)
    }

    /// The shared object of a name: the first that was put under the name.
    pub open spec fn lookup(&self, name: Seq<char>) -> Option<ObjectId> {
        match crate::avm1::object::first_match(self.names(), name, true) {
            Some(i) => Some(self.entries@[i].object),
            None => None,
        }
    }

    /// No shared objects.
    pub fn new() -> (r: SharedObjects)
        ensures
            r.entries@.len() == 0,
    {
        SharedObjects { entries: Vec::new() }
    }

    /// The shared object of a name.
    pub fn get(&self, name: &str) -> (r: Option<ObjectId>)
        ensures
            r == self.lookup(name@),
    {
        let ghost names = self.names();
        let mut i: usize = 0;
        while i < self.entries.len()
            invariant
                i <= self.entries@.len(),
                names == self.names(),
                forall|j: int| 0 <= j < i ==> #[trigger] names[j] != name@,
            decreases self.entries@.len() - i,
        {
            assert(names[i as int] == self.entries@[i as int].name@);
            if str_eq(self.entries[i].name.as_str(), name) {
                proof {
                    lemma_first_match_some(names, name@, true, i as int);
                }
                return Some(self.entries[i].object);
            }
            i = i + 1;
        }
        proof {
            crate::avm1::object::lemma_first_match(names, name@, true);
        }
        None
    }

    /// Puts a shared object under a name.
    pub fn insert(&mut self, name: String, object: ObjectId)
        ensures
            final(self).entries@ == old(self).entries@.push(SharedEntry { name, object }),
    {
        self.entries.push(SharedEntry { name, object });
    }
}

/// What `getLocal` finds.
#[derive(Debug)]
pub enum LocalLookup {
    /// The arguments name no shared object that may be kept: the answer to
    /// the script is `null`.
    Invalid,
    /// The shared object is in use already.
    Existing(ObjectId),
    /// The shared object is not in use: what is kept under the name is to
    /// be loaded.
    Load(String),
}

/// The text of an argument, if there is that argument and it is a string.
pub open spec fn string_arg(args: Seq<ValueView>, index: int) -> Option<Seq<char>> {
    if index < args.len() {
        match args[index] {
            ValueView::String(s) => Some(s),
            _ => None,
        }
    } else {
        None
    }
}

/// The name that the arguments of `getLocal` give: the text of the first
/// argument, placed by the second, the local path, and the third, whether
/// the shared object is secure.
pub open spec fn local_name(
    name: Seq<char>,
    args: Seq<ValueView>,
    movie_url: Option<Seq<char>>,
    swf_version: u8,
) -> Option<Seq<char>> {
    full_name_spec(
        name,
        parsed_url(
            match movie_url {
                Some(u) => u,
                None => "file://localhost"@,
            },
        ),
        string_arg(args, 1),
        args.len() > 2 && args[2].as_bool(swf_version),
    )
}

/// `getLocal`: finds the shared object that the arguments name. `name` is
/// the first argument as a text: the caller converts it, since the
/// conversion of an object runs its `toString`; without a first argument it
/// is the text of `undefined`.
pub fn get_local(
    shared_objects: &SharedObjects,
    name: &str,
    args: &Vec<Value>,
    movie_url: Option<&str>,
    swf_version: u8,
) -> (r: LocalLookup)
    ensures
        match local_name(
            name@,
            values_view(args@),
            match movie_url {
                Some(u) => Some(u@),
                None => None,
            },
            swf_version,
        ) {
            None => r is Invalid,
            Some(full) => match shared_objects.lookup(full) {
                Some(object) => r matches LocalLookup::Existing(o) && o == object,
                None => r matches LocalLookup::Load(name) && name@ == full,
            },
        },
{
    let local_path: Option<&str> = if args.len() > 1 {
        match &args[1] {
            Value::String(s) => Some(s.as_str()),
            _ => None,
        }
    } else {
        None
    };
    let secure: bool = args.len() > 2 && args[2].as_bool(swf_version);
    match shared_object_name(name, movie_url, local_path, secure) {
        None => LocalLookup::Invalid,
        Some(full) => match shared_objects.get(full.as_str()) {
            Some(object) => LocalLookup::Existing(object),
            None => LocalLookup::Load(full),
        },
    }
}

/// The attributes of the `data` of a shared object: protected from
/// deletion.
pub open spec fn data_attributes() -> Attributes {
    Attributes { dont_enum: false, dont_delete: true, read_only: false }
}

/// The data that was loaded for a shared object, if there is any: what is
/// kept of the value that was loaded, unless that is nothing or `Undefined`
/// or nested too deep to be read back.
pub open spec fn loaded_data(loaded: Option<(&Heap, &Value)>) -> Option<Tree> {
    match loaded {
        Some((kept, root)) => match persisted(kept@, root@, MAX_PERSIST_DEPTH as nat) {
            Kept::Data(Tree::Undefined) => None,
            Kept::Data(t) => Some(t),
            _ => None,
        },
        None => None,
    }
}

/// Makes the shared object of a name that is not in use, with the data
/// that was loaded for it, and puts it in use. Without data that was loaded,
/// where nothing is kept of it, and where it is nested too deep to be read
/// back, the data is a new empty object.
///
/// Returns the shared object: a new object that holds the data under
/// `data`.
pub fn create_local(
    heap: &mut Heap,
    shared_objects: &mut SharedObjects,
    full_name: String,
    loaded: Option<(&Heap, &Value)>,
    shared_object_proto: ObjectId,
    object_proto: ObjectId,
    array_proto: ObjectId,
) -> (r: ObjectId)
    ensures
        final(shared_objects).entries@ == old(shared_objects).entries@.push(
            SharedEntry { name: full_name, object: r },
        ),
        extends(final(heap)@, old(heap)@),
        r == final(heap)@.len() - 1,
        final(heap)@[r as int].kind == KindView::SharedObject(full_name@),
        final(heap)@[r as int].proto == Some(shared_object_proto),
        final(heap)@[r as int].properties.len() == 1,
        final(heap)@[r as int].properties[0].name == "data"@,
        final(heap)@[r as int].properties[0].property matches PropertyView::Stored {
            value,
            attributes,
        } && attributes == data_attributes() && (match loaded_data(loaded) {
            Some(t) => holds_tree(final(heap)@, value, MAX_PERSIST_DEPTH as nat, t),
            None => value matches ValueView::Object(fresh) && fresh < final(heap)@.len() && final(heap)@[fresh as int] == crate::avm1::empty_object(Some(object_proto)),
        }),
{
    let ghost begin = heap@;
    let restored: Value = match loaded {
        Some((kept, root)) => match deserialize_value(kept, root, heap, object_proto, array_proto) {
            Some(v) => v,
            None => Value::Undefined,
        },
        None => Value::Undefined,
    };
    let ghost mid = heap@;
    proof {
        assert(extends(mid, mid));
    }
    let data: Value = match restored {
        Value::Undefined => Value::Object(heap.allocate(ScriptObject::object(Some(object_proto)))),
        other => other,
    };
    let ghost filled = heap@;
    let mut object = ScriptObject::new(
        Some(shared_object_proto),
        ObjectKind::SharedObject(full_name.clone()),
    );
    assert(object.properties@.len() == 0) by {
        assert(object@.properties.len() == 0);
    }
    let ghost data_view = data@;
    object.properties.push(
        PropertyEntry {
            name: String::from_str("data"),
            property: Property::Stored {
                value: data,
                attributes: Attributes { dont_enum: false, dont_delete: true, read_only: false },
            },
        },
    );
    let this = heap.allocate(object);
    shared_objects.insert(full_name, this);
    proof {
        lemma_extends_transitive(filled, mid, begin);
        lemma_extends_transitive(heap@, filled, begin);
        match loaded_data(loaded) {
            Some(t) => {
                lemma_holds_in_more(mid, heap@, restored@, MAX_PERSIST_DEPTH as nat, t);
            },
            None => {},
        }
    }
    this
}

/// The last segment of a name: what stands behind its last slash.
pub open spec fn last_segment(name: Seq<char>) -> Seq<char>
    decreases name.len(),
{
    if name.len() == 0 {
        name
    } else if name.last() == '/' {
        Seq::empty()
    } else {
        last_segment(name.drop_last()).push(name.last())
    }
}

fn last_segment_of(name: &str) -> (r: String)
    ensures
        r@ == last_segment(name@),
{
    let n: usize = name.unicode_len();
    let mut start: usize = n;
    while start > 0 && name.get_char(start - 1) != '/'
        invariant
            start <= n,
            n == name@.len(),
            forall|j: int| start <= j < n ==> name@[j] != '/',
        decreases start,
    {
        start = start - 1;
    }
    proof {
        lemma_segment_from(name@, start as int);
    }
    String::from_str(name.substring_char(start, n))
}

proof fn lemma_segment_from(name: Seq<char>, start: int)
    requires
        0 <= start <= name.len(),
        forall|j: int| start <= j < name.len() ==> name[j] != '/',
        start == 0 || name[start - 1] == '/',
    ensures
        last_segment(name) == name.subrange(start, name.len() as int),
    decreases name.len(),
{
    if name.len() == 0 {
        assert(name.subrange(0, 0) =~= name);
    } else if start == name.len() {
        assert(name.subrange(start, name.len() as int) =~= Seq::empty());
    } else {
        let front = name.drop_last();
        assert forall|j: int| start <= j < front.len() implies front[j] != '/' by {
            assert(front[j] == name[j]);
        }
        lemma_segment_from(front, start);
        assert(name.subrange(start, name.len() as int) =~= front.subrange(
            start,
            front.len() as int,
        ).push(name.last()));
    }
}

/// What `flush` asks the host to keep.
#[derive(Debug)]
pub struct Flush {
    /// The name under which it is kept.
    pub name: String,
    /// The name it is written out under: the last segment of the name.
    pub lso_name: String,
    /// The heap of what is kept.
    pub kept: Heap,
    /// The data in that heap; or that nothing of the data is kept, or that
    /// the data are nested too deep to be kept: then the host keeps nothing
    /// new, and `flush` has failed.
    pub data: Copied,
}

/// The name of a shared object; none for what is no shared object.
pub open spec fn shared_name(heap: Seq<ObjectView>, this: ObjectId) -> Option<Seq<char>> {
    if this < heap.len() {
        match heap[this as int].kind {
            KindView::SharedObject(name) => Some(name),
            _ => None,
        }
    } else {
        None
    }
}

fn name_of(heap: &Heap, this: ObjectId) -> (r: Option<String>)
    ensures
        match r {
            Some(name) => shared_name(heap@, this) == Some(name@),
            None => shared_name(heap@, this) is None,
        },
{
    match heap.object(this) {
        Some(object) => match &object.kind {
            ObjectKind::SharedObject(name) => Some(name.clone()),
            _ => None,
        },
        None => None,
    }
}

/// `flush`: writes out the data of a shared object for the host to keep.
/// For what is no shared object there is nothing to keep.
pub fn flush(heap: &Heap, this: ObjectId) -> (r: Option<Flush>)
    ensures
        match shared_name(heap@, this) {
            None => r is None,
            Some(name) => r matches Some(f) && f.name@ == name && f.lso_name@ == last_segment(name)
                && (match persisted(
                heap@,
                heap@[this as int].data("data"@),
                MAX_PERSIST_DEPTH as nat,
            ) {
                Kept::Data(t) => f.data matches Copied::Value(c) && holds_tree(
                    f.kept@,
                    c@,
                    MAX_PERSIST_DEPTH as nat,
                    mirror(t),
                ),
                Kept::Nothing => f.data is Nothing,
                Kept::TooDeep => f.data is TooDeep,
            }),
        },
{
    let name = match name_of(heap, this) {
        Some(name) => name,
        None => {
            return None;
        },
    };
    let data = heap.objects[this].get_data("data");
    let mut kept = Heap::new();
    let copy = serialize_value(heap, &data, &mut kept);
    let lso_name = last_segment_of(name.as_str());
    Some(Flush { name, lso_name, kept, data: copy })
}

/// The object that is the data of a shared object.
pub open spec fn data_object(heap: Seq<ObjectView>, this: ObjectId) -> Option<ObjectId> {
    match shared_name(heap, this) {
        Some(_) => match heap[this as int].data("data"@) {
            ValueView::Object(o) => if o < heap.len() {
                Some(o)
            } else {
                None
            },
            _ => None,
        },
        None => None,
    }
}

/// An object after the first `count` of the given names were deleted from
/// it, one after the other.
pub open spec fn delete_all(o: ObjectView, names: Seq<Seq<char>>, count: nat) -> ObjectView
    decreases count,
{
    if count == 0 {
        o
    } else {
        delete_all(o, names, (count - 1) as nat).delete(names[count - 1], true)
    }
}

/// `clear`: deletes from the data of a shared object every property that
/// enumeration shows; a property that is protected from deletion stays.
/// Returns the name under which the host is to forget what it keeps; none
/// for what is no shared object.
pub fn clear(heap: &mut Heap, this: ObjectId) -> (r: Option<String>)
    ensures
        match r {
            Some(name) => shared_name(old(heap)@, this) == Some(name@),
            None => shared_name(old(heap)@, this) is None,
        },
        final(heap)@ == (match data_object(old(heap)@, this) {
            Some(data) => old(heap)@.update(
                data as int,
                delete_all(
                    old(heap)@[data as int],
                    old(heap)@[data as int].keys(),
                    old(heap)@[data as int].keys().len(),
                ),
            ),
            None => old(heap)@,
        }),
{
    let name = match name_of(heap, this) {
        Some(name) => name,
        None => {
            return None;
        },
    };
    let data = match heap.objects[this].get_data("data") {
        Value::Object(o) => o,
        _ => {
            return Some(name);
        },
    };
    if data >= heap.objects.len() {
        return Some(name);
    }
    let keys = heap.get_keys(data);
    let ghost names = old(heap)@[data as int].keys();
    let mut i: usize = 0;
    assert(heap@ =~= old(heap)@.update(data as int, delete_all(old(heap)@[data as int], names, 0)));
    while i < keys.len()
        invariant
            i <= keys@.len(),
            data < old(heap)@.len(),
            names == old(heap)@[data as int].keys(),
            names == Seq::new(keys@.len(), |k: int| keys@[k]@),
            heap@ == old(heap)@.update(
                data as int,
                delete_all(old(heap)@[data as int], names, i as nat),
            ),
        decreases keys@.len() - i,
    {
        assert(names[i as int] == keys@[i as int]@);
        heap.delete(data, keys[i].as_str(), true);
        i = i + 1;
        assert(heap@ =~= old(heap)@.update(
            data as int,
            delete_all(old(heap)@[data as int], names, i as nat),
        ));
    }
    Some(name)
}

/// `SharedObject.getDiskUsage`: it does nothing, and its answer is `Undefined` whatever it is
/// called on and with.
pub fn get_disk_usage(this: ObjectId, args: &Vec<Value>) -> (r: Value)
    ensures
        r@ == ValueView::Undefined,
{
    Value::Undefined
}

/// `SharedObject.getRemote`: it does nothing, and its answer is `Undefined` whatever it is
/// called on and with.
pub fn get_remote(this: ObjectId, args: &Vec<Value>) -> (r: Value)
    ensures
        r@ == ValueView::Undefined,
{
    Value::Undefined
}

/// `SharedObject.getMaxSize`: it does nothing, and its answer is `Undefined` whatever it is
/// called on and with.
pub fn get_max_size(this: ObjectId, args: &Vec<Value>) -> (r: Value)
    ensures
        r@ == ValueView::Undefined,
{
    Value::Undefined
}

/// `SharedObject.addListener`: it does nothing, and its answer is `Undefined` whatever it is
/// called on and with.
pub fn add_listener(this: ObjectId, args: &Vec<Value>) -> (r: Value)
    ensures
        r@ == ValueView::Undefined,
{
    Value::Undefined
}

/// `SharedObject.removeListener`: it does nothing, and its answer is `Undefined` whatever it is
/// called on and with.
pub fn remove_listener(this: ObjectId, args: &Vec<Value>) -> (r: Value)
    ensures
        r@ == ValueView::Undefined,
{
    Value::Undefined
}

/// `close` of a shared object: it does nothing, and its answer is `Undefined` whatever it is
/// called on and with.
pub fn close(this: ObjectId, args: &Vec<Value>) -> (r: Value)
    ensures
        r@ == ValueView::Undefined,
{
    Value::Undefined
}

/// `connect` of a shared object: it does nothing, and its answer is `Undefined` whatever it is
/// called on and with.
pub fn connect(this: ObjectId, args: &Vec<Value>) -> (r: Value)
    ensures
        r@ == ValueView::Undefined,
{
    Value::Undefined
}

/// `getSize` of a shared object: it does nothing, and its answer is `Undefined` whatever it is
/// called on and with.
pub fn get_size(this: ObjectId, args: &Vec<Value>) -> (r: Value)
    ensures
        r@ == ValueView::Undefined,
{
    Value::Undefined
}

/// `send` of a shared object: it does nothing, and its answer is `Undefined` whatever it is
/// called on and with.
pub fn send(this: ObjectId, args: &Vec<Value>) -> (r: Value)
    ensures
        r@ == ValueView::Undefined,
{
    Value::Undefined
}

/// `setFps` of a shared object: it does nothing, and its answer is `Undefined` whatever it is
/// called on and with.
pub fn set_fps(this: ObjectId, args: &Vec<Value>) -> (r: Value)
    ensures
        r@ == ValueView::Undefined,
{
    Value::Undefined
}

/// `onStatus` of a shared object: it does nothing, and its answer is `Undefined` whatever it is
/// called on and with.
pub fn on_status(this: ObjectId, args: &Vec<Value>) -> (r: Value)
    ensures
        r@ == ValueView::Undefined,
{
    Value::Undefined
}

/// `onSync` of a shared object: it does nothing, and its answer is `Undefined` whatever it is
/// called on and with.
pub fn on_sync(this: ObjectId, args: &Vec<Value>) -> (r: Value)
    ensures
        r@ == ValueView::Undefined,
{
    Value::Undefined
}

/// The constructor of shared objects: its answer is the object itself.
pub fn constructor(this: ObjectId) -> (r: Value)
    ensures
        r@ == ValueView::Object(this),
{
    Value::Object(this)
}


/// A property of an array that was kept: its name and its value.
#[derive(Debug)]
pub struct KeptEntry {
    pub name: String,
    pub value: Value,
}

/// The name and the value of each entry.
pub open spec fn kept_entries(entries: Seq<KeptEntry>) -> Seq<(Seq<char>, ValueView)> {
    Seq::new(entries.len(), |i: int| (entries[i].name@, entries[i].value@))
}

/// The heap after the first `count` entries of a kept array were put into
/// an array, one after the other. Under a name that writes an integer the
/// value is stored as the element at that index, which raises the length of
/// the array where the index lies at or beyond it; under any other name it
/// becomes a plain property.
pub open spec fn array_filled(
    heap: Seq<ObjectView>,
    array: ObjectId,
    entries: Seq<(Seq<char>, ValueView)>,
    count: nat,
) -> Seq<ObjectView>
    decreases count,
{
    if count == 0 {
        heap
    } else {
        let before = array_filled(heap, array, entries, (count - 1) as nat);
        let entry = entries[count - 1];
        match parse_i32_spec(entry.0) {
            Some(index) => set_element_spec(before, array, index, entry.1),
            None => if array < before.len() {
                before.update(
                    array as int,
                    before[array as int].define(
                        entry.0,
                        PropertyView::Stored { value: entry.1, attributes: Attributes::empty_spec() },
                    ),
                )
            } else {
                before
            },
        }
    }
}

/// Whether the entries of a kept array can be put into an array so that
/// its length stays consistent with its elements: none is named `length`, and
/// none is the element at the largest index, above which no length lies.
pub open spec fn fit_an_array(entries: Seq<(Seq<char>, ValueView)>) -> bool {
    forall|i: int|
        0 <= i < entries.len() ==> (#[trigger] entries[i]).0 != "length"@ && parse_i32_spec(
            entries[i].0,
        ) != Some(0x7fff_ffff as int)
}

proof fn lemma_property_keeps_consistent(o: ObjectView, name: Seq<char>, value: ValueView)
    requires
        array_consistent(o),
        name != "length"@,
        parse_i32_spec(name) is None,
    ensures
        array_consistent(
            o.define(name, PropertyView::Stored { value, attributes: Attributes::empty_spec() }),
        ),
{
    let property = PropertyView::Stored { value, attributes: Attributes::empty_spec() };
    let after = o.define(name, property);
    crate::avm1::object::lemma_own_after_define(o, name, property, "length"@);
    crate::avm1::object::lemma_first_match(o.names(), name, true);
    assert forall|i: int| 0 <= i < after.properties.len() implies within(array_length(after))(
        #[trigger] after.properties[i],
    ) by {
        if i < o.properties.len() {
            assert(within(array_length(o))(o.properties[i]));
            assert(after.properties[i].name == o.properties[i].name);
        }
    }
}

/// A restored array is an array whose length is consistent with its
/// elements: every element lies below its length.
pub proof fn lemma_restored_array_consistent(
    heap: Seq<ObjectView>,
    array_proto: Option<ObjectId>,
    length: int,
    entries: Seq<(Seq<char>, ValueView)>,
    count: nat,
)
    requires
        -0x8000_0000 <= length < 0x8000_0000,
        heap.len() < usize::MAX,
        count <= entries.len(),
        fit_an_array(entries),
    ensures
        ({
            let begun = heap.push(set_length_spec(array_of(Seq::empty(), array_proto), length));
            let filled = array_filled(begun, heap.len() as usize, entries, count);
            filled.len() == begun.len() && array_consistent(filled[heap.len() as int])
        }),
    decreases count,
{
    let array = heap.len() as usize;
    let begun = heap.push(set_length_spec(array_of(Seq::empty(), array_proto), length));
    if count == 0 {
        lemma_set_length(array_of(Seq::empty(), array_proto), length, 0, true);
    } else {
        lemma_restored_array_consistent(heap, array_proto, length, entries, (count - 1) as nat);
        let before = array_filled(begun, array, entries, (count - 1) as nat);
        let entry = entries[count - 1];
        match parse_i32_spec(entry.0) {
            Some(index) => {
                lemma_set_element_is_set_local(before, array, index, entry.1);
                crate::text::lemma_parse_decimal(index);
                lemma_set_local_keeps_consistent(before, array, decimal(index), entry.1, true);
            },
            None => {
                lemma_property_keeps_consistent(before[array as int], entry.0, entry.1);
            },
        }
    }
}

/// Restores an array that was kept: a new array of the kept length, into
/// which the entries are put in their order.
pub fn restore_array(
    heap: &mut Heap,
    array_proto: Option<ObjectId>,
    length: i32,
    entries: &Vec<KeptEntry>,
) -> (r: ObjectId)
    ensures
        r == old(heap)@.len(),
        final(heap)@ == array_filled(
            old(heap)@.push(set_length_spec(array_of(Seq::empty(), array_proto), length as int)),
            r,
            kept_entries(entries@),
            entries@.len(),
        ),
        old(heap)@.len() < usize::MAX && fit_an_array(kept_entries(entries@))
            ==> r < final(heap)@.len() && array_consistent(final(heap)@[r as int]),
{
    proof {
        if heap@.len() < usize::MAX && fit_an_array(kept_entries(entries@)) {
            lemma_restored_array_consistent(
                heap@,
                array_proto,
                length as int,
                kept_entries(entries@),
                entries@.len(),
            );
        }
    }
    let array = ArrayObject::empty_with_proto(heap, array_proto);
    array.set_length(heap, length);
    let ghost begun = heap@;
    assert(begun =~= old(heap)@.push(
        set_length_spec(array_of(Seq::empty(), array_proto), length as int),
    ));
    let mut i: usize = 0;
    while i < entries.len()
        invariant
            i <= entries@.len(),
            heap@ == array_filled(begun, array.0, kept_entries(entries@), i as nat),
        decreases entries@.len() - i,
    {
        let entry = &entries[i];
        assert(kept_entries(entries@)[i as int] == (entry.name@, entry.value@));
        match parse_i32(entry.name.as_str()) {
            Some(index) => {
                array.set_element(heap, index, entry.value.duplicate());
            },
            None => {
                heap.define_value(array.0, entry.name.as_str(), entry.value.duplicate(), Attributes::empty());
            },
        }
        i = i + 1;
    }
    array.0
}

/// Data that were read from what the host kept: a heap, and the value in
/// it that is the data.
#[derive(Debug)]
pub struct Loaded {
    pub kept: Heap,
    pub root: Value,
}

/// Which of the two forms in which data may be kept is taken: the binary
/// format where the bytes hold it, and else the older text format, in
/// which the objects that stand for arrays are then made arrays. Each
/// argument is what the bytes hold when read as that form; none where they
/// cannot be read so.
pub fn choose_loaded(binary: Option<Loaded>, text: Option<Loaded>) -> (r: Option<Loaded>)
    ensures
        match binary {
            Some(b) => r matches Some(l) && l.kept@ == b.kept@ && l.root@ == b.root@,
            None => match text {
                Some(t) => r matches Some(l) && l.root@ == t.root@ && l.kept@ == Seq::new(
                    t.kept@.len(),
                    |i: int| json_marked(t.kept@[i]),
                ),
                None => r is None,
            },
        },
{
    match binary {
        Some(b) => Some(b),
        None => match text {
            Some(t) => {
                let mut kept = t.kept;
                mark_json_arrays(&mut kept);
                Some(Loaded { kept, root: t.root })
            },
            None => None,
        },
    }
}

/// Whether an object that was read from the older text format stands for an
/// array: it says so under `__proto__`.
pub open spec fn is_json_array(o: ObjectView) -> bool {
    o.data("__proto__"@) == ValueView::String("Array"@)
}

/// The length that an object of the older text format states: the 32-bit
/// integer under `length`, and 0 where there is none.
pub open spec fn json_length(o: ObjectView) -> int {
    match o.data("length"@) {
        ValueView::Number(n) => match n.exact_i32() {
            Some(i) => i,
            None => 0,
        },
        _ => 0,
    }
}

/// The length of an array that holds the first `upto` properties of an
/// object as its elements: the length that was stated, raised by every
/// element at or beyond it.
pub open spec fn needed_length(o: ObjectView, upto: nat) -> int
    decreases upto,
{
    if upto == 0 {
        json_length(o)
    } else {
        let before = needed_length(o, (upto - 1) as nat);
        match parse_i32_spec(o.properties[upto - 1].name) {
            Some(index) => if index >= before {
                length_for(index)
            } else {
                before
            },
            None => before,
        }
    }
}

/// Whether a property of an object of the older text format is a property
/// of the array it stands for: all are but `length` and `__proto__`.
pub open spec fn is_json_member() -> spec_fn(EntryView) -> bool {
    |e: EntryView| e.name != "length"@ && e.name != "__proto__"@
}

/// An object of the older text format as the object it stands for: an
/// object that says that it is an array becomes an array of the length it
/// needs, with its other properties as elements and properties; any other
/// object stays as it is.
pub open spec fn json_marked(o: ObjectView) -> ObjectView {
    if is_json_array(o) {
        ObjectView {
            kind: KindView::Array,
            properties: seq![
                EntryView {
                    name: "length"@,
                    property: length_property(needed_length(o, o.properties.len())),
                },
            ] + o.properties.filter(is_json_member()),
            ..o
        }
    } else {
        o
    }
}

impl ScriptObject {
    /// Turns an object of the older text format into the object it stands
    /// for.
    pub fn mark_json_array(&mut self)
        ensures
            final(self)@ == json_marked(old(self)@),
    {
        let marked: bool = match self.get_data("__proto__") {
            Value::String(s) => str_eq(s.as_str(), "Array"),
            _ => false,
        };
        if !marked {
            return ;
        }
        let stated: i32 = match self.get_data("length") {
            Value::Number(n) => match n.as_exact_i32() {
                Some(i) => i,
                None => 0,
            },
            _ => 0,
        };
        let ghost before = self@;
        let ghost keep = is_json_member();
        let mut length: i32 = stated;
        let mut members: Vec<PropertyEntry> = Vec::new();
        let mut rest: Vec<PropertyEntry> = Vec::new();
        core::mem::swap(&mut rest, &mut self.properties);
        let mut i: usize = 0;
        proof {
            assert(before.properties.take(0) =~= Seq::empty());
            reveal(Seq::filter);
            assert(before.properties.take(0).filter(keep) =~= Seq::empty());
            assert(entry_views(members@) =~= Seq::empty());
            assert(entry_views(rest@) =~= before.properties);
        }
        // The entries are moved out from the end, so they are read in
        // reverse; the members are put back into their order afterwards.
        let mut taken: Vec<PropertyEntry> = Vec::new();
        let total: usize = rest.len();
        assert(before.properties.len() == total);
        while rest.len() > 0
            invariant
                rest@.len() + taken@.len() == before.properties.len(),
                before.properties.len() <= usize::MAX,
                forall|k: int|
                    0 <= k < rest@.len() ==> (#[trigger] rest@[k])@ == before.properties[k],
                forall|k: int|
                    0 <= k < taken@.len() ==> (#[trigger] taken@[k])@ == before.properties[
                        before.properties.len() - 1 - k
                    ],
            decreases rest@.len(),
        {
            let e = rest.pop().unwrap();
            taken.push(e);
        }
        while taken.len() > 0
            invariant
                i + taken@.len() == before.properties.len(),
                before.properties.len() <= usize::MAX,
                keep == is_json_member(),
                forall|k: int|
                    0 <= k < taken@.len() ==> (#[trigger] taken@[k])@ == before.properties[
                        before.properties.len() - 1 - k
                    ],
                length == needed_length(before, i as nat),
                entry_views(members@) == before.properties.take(i as int).filter(keep),
            decreases taken@.len(),
        {
            let e = taken.pop().unwrap();
            proof {
                assert(e@ == before.properties[i as int]);
                assert(before.properties.take(i as int + 1) =~= before.properties.take(
                    i as int,
                ).push(before.properties[i as int]));
                before.properties.take(i as int).lemma_filter_push(
                    before.properties[i as int],
                    keep,
                );
            }
            match parse_i32(e.name.as_str()) {
                Some(index) => {
                    if index >= length {
                        length = if index == i32::MAX {
                            i32::MAX
                        } else {
                            index + 1
                        };
                    }
                },
                None => {},
            }
            let ghost earlier = entry_views(members@);
            if !str_eq(e.name.as_str(), "length") && !str_eq(e.name.as_str(), "__proto__") {
                members.push(e);
                assert(entry_views(members@) =~= earlier.push(e@));
            }
            i = i + 1;
        }
        proof {
            assert(before.properties.take(i as int) =~= before.properties);
        }
        let ghost kept = entry_views(members@);
        members.insert(
            0,
            PropertyEntry {
                name: String::from_str("length"),
                property: Property::Stored {
                    value: Value::from_i32(length),
                    attributes: Attributes { dont_enum: true, dont_delete: true, read_only: false },
                },
            },
        );
        self.properties = members;
        self.kind = ObjectKind::Array;
        proof {
            assert(self@.properties =~= json_marked(before).properties);
            assert(self@.watchers =~= before.watchers);
        }
    }
}

/// Turns every object of a heap that was read from the older text format
/// into the object it stands for.
pub fn mark_json_arrays(kept: &mut Heap)
    ensures
        final(kept)@ == Seq::new(old(kept)@.len(), |i: int| json_marked(old(kept)@[i])),
{
    let mut i: usize = 0;
    while i < kept.objects.len()
        invariant
            i <= kept@.len(),
            kept@.len() == old(kept)@.len(),
            forall|k: int| 0 <= k < i ==> #[trigger] kept@[k] == json_marked(old(kept)@[k]),
            forall|k: int| i <= k < kept@.len() ==> #[trigger] kept@[k] == old(kept)@[k],
        decreases kept@.len() - i,
    {
        let ghost previous = kept@;
        kept.objects[i].mark_json_array();
        assert(kept@ =~= previous.update(i as int, json_marked(previous[i as int])));
        i = i + 1;
    }
    assert(kept@ =~= Seq::new(old(kept)@.len(), |i: int| json_marked(old(kept)@[i])));
}


/// An object whose properties are functions: one for each of the names, in
/// their order, each a function object of its own. The function objects
/// stand in the heap from `first` on.
pub open spec fn methods_object(
    names: Seq<Seq<char>>,
    first: ObjectId,
    proto: Option<ObjectId>,
    kind: KindView,
) -> ObjectView {
    ObjectView {
        properties: Seq::new(
            names.len(),
            |i: int|
                EntryView {
                    name: names[i],
                    property: PropertyView::Stored {
                        value: ValueView::Object((first + i) as usize),
                        attributes: Attributes::empty_spec(),
                    },
                },
        ),
        proto,
        kind,
        watchers: Seq::empty(),
    }
}

/// The heap with a function object for each name, and behind them the
/// object that holds them under their names.
pub open spec fn with_methods(
    heap: Seq<ObjectView>,
    names: Seq<Seq<char>>,
    proto: Option<ObjectId>,
    fn_proto: ObjectId,
    kind: KindView,
) -> Seq<ObjectView> {
    (heap + Seq::new(
        names.len(),
        |i: int| crate::avm1::globals::external_interface::function_object(fn_proto),
    )).push(methods_object(names, heap.len() as usize, proto, kind))
}

fn define_methods(
    heap: &mut Heap,
    names: &Vec<String>,
    proto: Option<ObjectId>,
    fn_proto: ObjectId,
    kind: ObjectKind,
) -> (r: ObjectId)
    requires
        old(heap)@.len() + names@.len() < usize::MAX,
    ensures
        r == old(heap)@.len() + names@.len(),
        final(heap)@ == with_methods(
            old(heap)@,
            crate::avm1::read::texts(names@),
            proto,
            fn_proto,
            kind@,
        ),
{
    let first: usize = heap.len();
    let ghost texts = crate::avm1::read::texts(names@);
    let mut properties: Vec<PropertyEntry> = Vec::new();
    let mut i: usize = 0;
    while i < names.len()
        invariant
            i <= names@.len(),
            first == old(heap)@.len(),
            first + names@.len() < usize::MAX,
            texts == crate::avm1::read::texts(names@),
            heap@ == old(heap)@ + Seq::new(
                i as nat,
                |k: int| crate::avm1::globals::external_interface::function_object(fn_proto),
            ),
            properties@.len() == i,
            forall|k: int|
                0 <= k < i ==> (#[trigger] properties@[k])@ == methods_object(
                    texts,
                    first,
                    proto,
                    kind@,
                ).properties[k],
        decreases names@.len() - i,
    {
        let function = heap.allocate(ScriptObject::function(Some(fn_proto)));
        properties.push(
            PropertyEntry {
                name: names[i].clone(),
                property: Property::Stored {
                    value: Value::Object(function),
                    attributes: Attributes::empty(),
                },
            },
        );
        i = i + 1;
        assert(heap@ =~= old(heap)@ + Seq::new(
            i as nat,
            |k: int| crate::avm1::globals::external_interface::function_object(fn_proto),
        ));
    }
    let object = ScriptObject { properties, proto, kind, watchers: Vec::new() };
    proof {
        let want = methods_object(texts, first, proto, kind@);
        assert(object@.properties =~= want.properties);
        assert(object@.watchers =~= want.watchers);
    }
    heap.allocate(object)
}

/// The names of the methods of a shared object.
pub open spec fn proto_methods() -> Seq<Seq<char>> {
    seq![
        "clear"@,
        "close"@,
        "connect"@,
        "flush"@,
        "getSize"@,
        "send"@,
        "setFps"@,
        "onStatus"@,
        "onSync"@,
    ]
}

/// The names of the functions of `SharedObject` itself.
pub open spec fn object_methods() -> Seq<Seq<char>> {
    seq![
        "deleteAll"@,
        "getDiskUsage"@,
        "getLocal"@,
        "getRemote"@,
        "getMaxSize"@,
        "addListener"@,
        "removeListener"@,
    ]
}

/// Makes the prototype of shared objects: a shared object without a name
/// that holds the methods, each a function object of its own.
pub fn create_proto(heap: &mut Heap, proto: ObjectId, fn_proto: ObjectId) -> (r: ObjectId)
    requires
        old(heap)@.len() < usize::MAX - 16,
    ensures
        r == old(heap)@.len() + 9,
        final(heap)@ == with_methods(
            old(heap)@,
            proto_methods(),
            Some(proto),
            fn_proto,
            KindView::SharedObject(Seq::empty()),
        ),
{
    let mut names: Vec<String> = Vec::new();
    names.push(String::from_str("clear"));
    names.push(String::from_str("close"));
    names.push(String::from_str("connect"));
    names.push(String::from_str("flush"));
    names.push(String::from_str("getSize"));
    names.push(String::from_str("send"));
    names.push(String::from_str("setFps"));
    names.push(String::from_str("onStatus"));
    names.push(String::from_str("onSync"));
    assert(crate::avm1::read::texts(names@) =~= proto_methods());
    define_methods(heap, &names, Some(proto), fn_proto, ObjectKind::SharedObject(String::new()))
}

/// The attributes of the `prototype` of a constructor: hidden from
/// enumeration and protected from deletion.
pub open spec fn prototype_attributes() -> Attributes {
    Attributes { dont_enum: true, dont_delete: true, read_only: false }
}

/// Makes `SharedObject`: a function that holds the functions of
/// `SharedObject` itself, each a function object of its own, and the
/// prototype of shared objects under `prototype`.
pub fn create_shared_object_object(
    heap: &mut Heap,
    shared_object_proto: ObjectId,
    fn_proto: ObjectId,
) -> (r: ObjectId)
    requires
        old(heap)@.len() < usize::MAX - 16,
    ensures
        r == old(heap)@.len() + 7,
        final(heap)@ == with_methods(
            old(heap)@,
            object_methods(),
            Some(fn_proto),
            fn_proto,
            KindView::Function,
        ).update(
            r as int,
            methods_object(
                object_methods(),
                old(heap)@.len() as usize,
                Some(fn_proto),
                KindView::Function,
            ).define(
                "prototype"@,
                PropertyView::Stored {
                    value: ValueView::Object(shared_object_proto),
                    attributes: prototype_attributes(),
                },
            ),
        ),
{
    let mut names: Vec<String> = Vec::new();
    names.push(String::from_str("deleteAll"));
    names.push(String::from_str("getDiskUsage"));
    names.push(String::from_str("getLocal"));
    names.push(String::from_str("getRemote"));
    names.push(String::from_str("getMaxSize"));
    names.push(String::from_str("addListener"));
    names.push(String::from_str("removeListener"));
    assert(crate::avm1::read::texts(names@) =~= object_methods());
    let object = define_methods(heap, &names, Some(fn_proto), fn_proto, ObjectKind::Function);
    heap.define_value(
        object,
        "prototype",
        Value::Object(shared_object_proto),
        Attributes { dont_enum: true, dont_delete: true, read_only: false },
    );
    object
}

} // verus!
