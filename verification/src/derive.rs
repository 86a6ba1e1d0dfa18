//! Source text of derived implementations.
//!
//! From what the attributes of a struct say, [`generate_aggregate_impl`] writes the
//! event enum and the trait implementations of an aggregate, and
//! [`generate_projection_impl`] those of a projection. What they write is Rust
//! source text; whoever has the tokens of the struct puts it in its place.

use heck::{ToKebabCase, ToUpperCamelCase};
use vstd::prelude::*;

use crate::message::Message;

pub mod laws;

verus! {

/// What `heck` makes of a text in kebab case.
pub uninterp spec fn kebab_case(text: Seq<char>) -> Seq<char>;

/// What `heck` makes of a text in upper camel case.
pub uninterp spec fn upper_camel_case(text: Seq<char>) -> Seq<char>;

/// Calls `ToKebabCase::to_kebab_case` of `heck`: the result depends on the text
/// alone. Which one it is, is left to `heck`.
#[verifier::external_body]
fn to_kebab_case(text: &str) -> (r: String)
    ensures
        r@ == kebab_case(text@),
{
    text.to_kebab_case()
}

/// Calls `ToUpperCamelCase::to_upper_camel_case` of `heck`: the result depends on
/// the text alone. Which one it is, is left to `heck`.
#[verifier::external_body]
fn to_upper_camel_case(text: &str) -> (r: String)
    ensures
        r@ == upper_camel_case(text@),
{
    text.to_upper_camel_case()
}

/// `String::push` appends the character.
pub assume_specification[ String::push ](text: &mut String, ch: char)
    ensures
        final(text)@ == old(text)@.push(ch),
;

/// A path to a type: its segments without arguments, and its source text.
#[derive(Clone, Debug)]
pub struct TypePath {
    /// The names between the `::`.
    pub segments: Vec<String>,
    /// The source text.
    pub text: String,
}

/// The three parts of a struct's generics in source text: `<..>` with bounds for
/// `impl`, `<..>` without for the type, and the predicates after `where`.
#[derive(Clone, Debug)]
pub struct GenericsText {
    /// Generics with bounds.
    pub impl_generics: String,
    /// Generics without bounds.
    pub ty_generics: String,
    /// Predicates of the `where` clause, if there is one.
    pub predicates: Option<String>,
}

/// What the `#[aggregate(...)]` attribute of a struct says.
#[derive(Clone, Debug)]
pub struct AggregateArgs {
    /// Name of the struct.
    pub ident: String,
    /// Visibility of the struct, in source text.
    pub vis: String,
    /// Generics of the struct.
    pub generics: GenericsText,
    /// Aggregate ID type.
    pub id: String,
    /// Error type for command handling.
    pub error: String,
    /// Event types.
    pub events: Vec<TypePath>,
    /// The event type that creates an aggregate, if one is named.
    pub create: Option<TypePath>,
    /// Aggregate type identifier, if one is given.
    pub kind: Option<String>,
    /// Name of the event enum, if one is given.
    pub event_enum: Option<String>,
    /// Additional derives for the event enum.
    pub derives: Option<Vec<String>>,
}

/// What the `#[projection(...)]` attribute of a struct says.
#[derive(Clone, Debug)]
pub struct ProjectionArgs {
    /// Name of the struct.
    pub ident: String,
    /// Generics of the struct.
    pub generics: GenericsText,
    /// Projection type identifier, if one is given.
    pub kind: Option<String>,
    /// Aggregate ID type, if one is given.
    pub id: Option<String>,
    /// Instance ID type, if one is given.
    pub instance_id: Option<String>,
    /// Metadata type, if one is given.
    pub metadata: Option<String>,
    /// Event types to subscribe to.
    pub events: Vec<TypePath>,
}

/// Captures the event type path and its generated enum variant identifier.
pub struct EventSpec {
    /// Source text of the path.
    pub path: String,
    /// Name of the variant.
    pub variant: String,
}

/// `texts` with `separator` between each two.
pub open spec fn joined(texts: Seq<Seq<char>>, separator: Seq<char>) -> Seq<char>
    decreases texts.len(),
{
    if texts.len() == 0 {
        Seq::empty()
    } else if texts.len() == 1 {
        texts[0]
    } else {
        joined(texts.drop_last(), separator) + separator + texts.last()
    }
}

/// The texts of a list of strings.
pub open spec fn views(texts: Seq<String>) -> Seq<Seq<char>> {
    texts.map_values(|text: String| text@)
}

/// Puts `separator` between each two of `texts`.
fn join(texts: &Vec<String>, separator: &str) -> (r: String)
    ensures
        r@ == joined(views(texts@), separator@),
{
    let mut r: String = String::new();
    let mut i: usize = 0;
    while i < texts.len()
        invariant
            i <= texts@.len(),
            r@ == joined(views(texts@.take(i as int)), separator@),
        decreases texts@.len() - i,
    {
        proof {
            let before = views(texts@.take(i as int));
            let after = views(texts@.take(i + 1));
            assert(after.drop_last() == before);
            assert(after.last() == texts@[i as int]@);
            assert(Seq::<char>::empty() + texts@[i as int]@ == texts@[i as int]@);
        }
        if i > 0 {
            r.append(separator);
        }
        r.append(texts[i].as_str());
        i = i + 1;
    }
    assert(texts@.take(texts@.len() as int) == texts@);
    r
}

/// Name of the enum variant for a type: the segments of its path, in upper camel
/// case as one name.
pub open spec fn variant_name(segments: Seq<String>) -> Seq<char> {
    upper_camel_case(joined(views(segments), "_"@))
}

/// Build a PascalCase enum variant name from the segments of a type path.
pub fn path_to_pascal_ident(segments: &Vec<String>) -> (r: String)
    ensures
        r@ == variant_name(segments@),
{
    let combined: String = join(segments, "_");
    to_upper_camel_case(combined.as_str())
}

/// The kind that is given, or else the name in kebab case.
pub open spec fn kind_or_default(ident: Seq<char>, kind: Option<String>) -> Seq<char> {
    match kind {
        Some(kind) => kind@,
        None => kebab_case(ident),
    }
}

/// Returns the kind override or the default kebab-case name from the ident.
pub fn default_kind(ident: &str, kind: &Option<String>) -> (r: String)
    ensures
        r@ == kind_or_default(ident@, *kind),
{
    match kind {
        Some(kind) => kind.clone(),
        None => to_kebab_case(ident),
    }
}

impl EventSpec {
    /// Build an event spec from a type path.
    pub fn new(path: &TypePath) -> (r: Self)
        ensures
            r.path@ == path.text@,
            r.variant@ == variant_name(path.segments@),
    {
        EventSpec { path: path.text.clone(), variant: path_to_pascal_ident(&path.segments) }
    }
}

/// How a character stands in a string literal.
pub open spec fn escaped(ch: char) -> Seq<char> {
    if ch == '"' {
        seq!['\\', '"']
    } else if ch == '\\' {
        seq!['\\', '\\']
    } else if ch == '\r' {
        seq!['\\', 'r']
    } else {
        seq![ch]
    }
}

/// How a text stands in a string literal.
pub open spec fn escaped_text(text: Seq<char>) -> Seq<char>
    decreases text.len(),
{
    if text.len() == 0 {
        Seq::empty()
    } else {
        escaped_text(text.drop_last()) + escaped(text.last())
    }
}

/// The string literal of a text.
pub open spec fn literal_text(text: Seq<char>) -> Seq<char> {
    seq!['"'] + escaped_text(text) + seq!['"']
}

/// Writes a text as a string literal.
fn literal(text: &str) -> (r: String)
    ensures
        r@ == literal_text(text@),
{
    let mut r: String = String::new();
    r.push('"');
    let ghost all = text@;
    for ch in iter: text.chars()
        invariant
            iter.seq() == all,
            r@ == seq!['"'] + escaped_text(all.take(iter.index())),
    {
        proof {
            let n = iter.index();
            assert(all.take(n + 1).drop_last() == all.take(n));
            assert(all.take(n + 1).last() == all[n]);
        }
        if ch == '"' || ch == '\\' {
            r.push('\\');
            r.push(ch);
        } else if ch == '\r' {
            r.push('\\');
            r.push('r');
        } else {
            r.push(ch);
        }
    }
    assert(all.take(all.len() as int) == all);
    r.push('"');
    r
}

/// The names that stand for one event type in the source text.
pub struct EventNames {
    pub path: Seq<char>,
    pub variant: Seq<char>,
}

impl EventSpec {
    /// The names that stand for this event type.
    pub open spec fn names(self) -> EventNames {
        EventNames { path: self.path@, variant: self.variant@ }
    }
}

/// The names that stand for event types.
pub open spec fn names_of(events: Seq<EventSpec>) -> Seq<EventNames> {
    events.map_values(|event: EventSpec| event.names())
}

/// The variant of one event type.
pub open spec fn variant_text(event: EventNames) -> Seq<char> {
    event.variant
        + "("@
        + event.path
        + ")"@
}

fn variant(event: &EventSpec) -> (text: String)
    ensures
        text@ == variant_text(event.names()),
{
    let mut text: String = event.variant.clone();
    text.append("(");
    text.append(event.path.as_str());
    text.append(")");
    text
}

/// The arm of `kind` for one event type.
pub open spec fn kind_arm_text(event: EventNames) -> Seq<char> {
    "Self::"@
        + event.variant
        + "(_) => "@
        + event.path
        + "::KIND"@
}

fn kind_arm(event: &EventSpec) -> (text: String)
    ensures
        text@ == kind_arm_text(event.names()),
{
    let mut text: String = "Self::".to_owned();
    text.append(event.variant.as_str());
    text.append("(_) => ");
    text.append(event.path.as_str());
    text.append("::KIND");
    text
}

/// The arm of `serialize` for one event type.
pub open spec fn serialize_arm_text(event: EventNames) -> Seq<char> {
    "Self::"@
        + event.variant
        + "(inner) => ::serde::Serialize::serialize(inner, serializer)"@
}

fn serialize_arm(event: &EventSpec) -> (text: String)
    ensures
        text@ == serialize_arm_text(event.names()),
{
    let mut text: String = "Self::".to_owned();
    text.append(event.variant.as_str());
    text.append("(inner) => ::serde::Serialize::serialize(inner, serializer)");
    text
}

/// The kind of one event type.
pub open spec fn kind_const_text(event: EventNames) -> Seq<char> {
    event.path
        + "::KIND"@
}

fn kind_const(event: &EventSpec) -> (text: String)
    ensures
        text@ == kind_const_text(event.names()),
{
    let mut text: String = event.path.clone();
    text.append("::KIND");
    text
}

/// The arm of `from_stored` for one event type.
pub open spec fn decode_arm_text(event: EventNames) -> Seq<char> {
    event.path
        + "::KIND => Ok(Self::"@
        + event.variant
        + "(store.decode_event(stored).map_err(::sourcery::event::EventDecodeError::Store)?)),"@
}

fn decode_arm(event: &EventSpec) -> (text: String)
    ensures
        text@ == decode_arm_text(event.names()),
{
    let mut text: String = event.path.clone();
    text.append("::KIND => Ok(Self::");
    text.append(event.variant.as_str());
    text.append("(store.decode_event(stored).map_err(::sourcery::event::EventDecodeError::Store)?)),");
    text
}

/// The conversion of one event type into the enum.
pub open spec fn from_impl_text(event: EventNames, enum_name: Seq<char>) -> Seq<char> {
    "impl From<"@
        + event.path
        + "> for "@
        + enum_name
        + " { fn from(event: "@
        + event.path
        + ") -> Self { Self::"@
        + event.variant
        + "(event) } }"@
}

fn from_impl(event: &EventSpec, enum_name: &str) -> (text: String)
    ensures
        text@ == from_impl_text(event.names(), enum_name@),
{
    let mut text: String = "impl From<".to_owned();
    text.append(event.path.as_str());
    text.append("> for ");
    text.append(enum_name);
    text.append(" { fn from(event: ");
    text.append(event.path.as_str());
    text.append(") -> Self { Self::");
    text.append(event.variant.as_str());
    text.append("(event) } }");
    text
}

/// The arm of `apply` for one event type.
pub open spec fn apply_arm_text(event: EventNames, enum_name: Seq<char>) -> Seq<char> {
    enum_name
        + "::"@
        + event.variant
        + "(e) => ::sourcery::Apply::apply(self, e)"@
}

fn apply_arm(event: &EventSpec, enum_name: &str) -> (text: String)
    ensures
        text@ == apply_arm_text(event.names(), enum_name@),
{
    let mut text: String = enum_name.to_owned();
    text.append("::");
    text.append(event.variant.as_str());
    text.append("(e) => ::sourcery::Apply::apply(self, e)");
    text
}

/// The subscription to one event type.
pub open spec fn subscription_text(event: EventNames) -> Seq<char> {
    ".event::<"@
        + event.path
        + ">()"@
}

fn subscription(event: &EventSpec) -> (text: String)
    ensures
        text@ == subscription_text(event.names()),
{
    let mut text: String = ".event::<".to_owned();
    text.append(event.path.as_str());
    text.append(">()");
    text
}

/// The variants of all event types.
pub open spec fn variants_text(events: Seq<EventNames>) -> Seq<char> {
    joined(events.map_values(|event: EventNames| variant_text(event)), ", "@)
}

fn variants(events: &Vec<EventSpec>) -> (text: String)
    ensures
        text@ == variants_text(names_of(events@)),
{
    let mut texts: Vec<String> = Vec::new();
    let mut i: usize = 0;
    while i < events.len()
        invariant
            i <= events@.len(),
            texts@.len() == i,
            forall|k: int| 0 <= k < i ==> (#[trigger] texts@[k])@ == variant_text(events@[k].names()),
        decreases events@.len() - i,
    {
        texts.push(variant(&events[i]));
        i = i + 1;
    }
    assert(views(texts@) == names_of(events@).map_values(|event: EventNames| variant_text(event)));
    join(&texts, ", ")
}

/// The arms of `kind`.
pub open spec fn kind_arms_text(events: Seq<EventNames>) -> Seq<char> {
    joined(events.map_values(|event: EventNames| kind_arm_text(event)), ", "@)
}

fn kind_arms(events: &Vec<EventSpec>) -> (text: String)
    ensures
        text@ == kind_arms_text(names_of(events@)),
{
    let mut texts: Vec<String> = Vec::new();
    let mut i: usize = 0;
    while i < events.len()
        invariant
            i <= events@.len(),
            texts@.len() == i,
            forall|k: int| 0 <= k < i ==> (#[trigger] texts@[k])@ == kind_arm_text(events@[k].names()),
        decreases events@.len() - i,
    {
        texts.push(kind_arm(&events[i]));
        i = i + 1;
    }
    assert(views(texts@) == names_of(events@).map_values(|event: EventNames| kind_arm_text(event)));
    join(&texts, ", ")
}

/// The arms of `serialize`.
pub open spec fn serialize_arms_text(events: Seq<EventNames>) -> Seq<char> {
    joined(events.map_values(|event: EventNames| serialize_arm_text(event)), ", "@)
}

fn serialize_arms(events: &Vec<EventSpec>) -> (text: String)
    ensures
        text@ == serialize_arms_text(names_of(events@)),
{
    let mut texts: Vec<String> = Vec::new();
    let mut i: usize = 0;
    while i < events.len()
        invariant
            i <= events@.len(),
            texts@.len() == i,
            forall|k: int| 0 <= k < i ==> (#[trigger] texts@[k])@ == serialize_arm_text(events@[k].names()),
        decreases events@.len() - i,
    {
        texts.push(serialize_arm(&events[i]));
        i = i + 1;
    }
    assert(views(texts@) == names_of(events@).map_values(|event: EventNames| serialize_arm_text(event)));
    join(&texts, ", ")
}

/// The kinds of all event types.
pub open spec fn kind_consts_text(events: Seq<EventNames>) -> Seq<char> {
    joined(events.map_values(|event: EventNames| kind_const_text(event)), ", "@)
}

fn kind_consts(events: &Vec<EventSpec>) -> (text: String)
    ensures
        text@ == kind_consts_text(names_of(events@)),
{
    let mut texts: Vec<String> = Vec::new();
    let mut i: usize = 0;
    while i < events.len()
        invariant
            i <= events@.len(),
            texts@.len() == i,
            forall|k: int| 0 <= k < i ==> (#[trigger] texts@[k])@ == kind_const_text(events@[k].names()),
        decreases events@.len() - i,
    {
        texts.push(kind_const(&events[i]));
        i = i + 1;
    }
    assert(views(texts@) == names_of(events@).map_values(|event: EventNames| kind_const_text(event)));
    join(&texts, ", ")
}

/// The arms of `from_stored`.
pub open spec fn decode_arms_text(events: Seq<EventNames>) -> Seq<char> {
    joined(events.map_values(|event: EventNames| decode_arm_text(event)), " "@)
}

fn decode_arms(events: &Vec<EventSpec>) -> (text: String)
    ensures
        text@ == decode_arms_text(names_of(events@)),
{
    let mut texts: Vec<String> = Vec::new();
    let mut i: usize = 0;
    while i < events.len()
        invariant
            i <= events@.len(),
            texts@.len() == i,
            forall|k: int| 0 <= k < i ==> (#[trigger] texts@[k])@ == decode_arm_text(events@[k].names()),
        decreases events@.len() - i,
    {
        texts.push(decode_arm(&events[i]));
        i = i + 1;
    }
    assert(views(texts@) == names_of(events@).map_values(|event: EventNames| decode_arm_text(event)));
    join(&texts, " ")
}

/// The conversions of all event types into the enum.
pub open spec fn from_impls_text(events: Seq<EventNames>, enum_name: Seq<char>) -> Seq<char> {
    joined(events.map_values(|event: EventNames| from_impl_text(event, enum_name)), " "@)
}

fn from_impls(events: &Vec<EventSpec>, enum_name: &str) -> (text: String)
    ensures
        text@ == from_impls_text(names_of(events@), enum_name@),
{
    let mut texts: Vec<String> = Vec::new();
    let mut i: usize = 0;
    while i < events.len()
        invariant
            i <= events@.len(),
            texts@.len() == i,
            forall|k: int| 0 <= k < i ==> (#[trigger] texts@[k])@ == from_impl_text(events@[k].names(), enum_name@),
        decreases events@.len() - i,
    {
        texts.push(from_impl(&events[i], enum_name));
        i = i + 1;
    }
    assert(views(texts@) == names_of(events@).map_values(|event: EventNames| from_impl_text(event, enum_name@)));
    join(&texts, " ")
}

/// The arms of `apply`.
pub open spec fn apply_arms_text(events: Seq<EventNames>, enum_name: Seq<char>) -> Seq<char> {
    joined(events.map_values(|event: EventNames| apply_arm_text(event, enum_name)), ", "@)
}

fn apply_arms(events: &Vec<EventSpec>, enum_name: &str) -> (text: String)
    ensures
        text@ == apply_arms_text(names_of(events@), enum_name@),
{
    let mut texts: Vec<String> = Vec::new();
    let mut i: usize = 0;
    while i < events.len()
        invariant
            i <= events@.len(),
            texts@.len() == i,
            forall|k: int| 0 <= k < i ==> (#[trigger] texts@[k])@ == apply_arm_text(events@[k].names(), enum_name@),
        decreases events@.len() - i,
    {
        texts.push(apply_arm(&events[i], enum_name));
        i = i + 1;
    }
    assert(views(texts@) == names_of(events@).map_values(|event: EventNames| apply_arm_text(event, enum_name@)));
    join(&texts, ", ")
}

/// The subscriptions to all event types.
pub open spec fn subscriptions_text(events: Seq<EventNames>) -> Seq<char> {
    joined(events.map_values(|event: EventNames| subscription_text(event)), ""@)
}

fn subscriptions(events: &Vec<EventSpec>) -> (text: String)
    ensures
        text@ == subscriptions_text(names_of(events@)),
{
    let mut texts: Vec<String> = Vec::new();
    let mut i: usize = 0;
    while i < events.len()
        invariant
            i <= events@.len(),
            texts@.len() == i,
            forall|k: int| 0 <= k < i ==> (#[trigger] texts@[k])@ == subscription_text(events@[k].names()),
        decreases events@.len() - i,
    {
        texts.push(subscription(&events[i]));
        i = i + 1;
    }
    assert(views(texts@) == names_of(events@).map_values(|event: EventNames| subscription_text(event)));
    join(&texts, "")
}

/// The event enum.
pub open spec fn event_enum_text(derives: Seq<char>, vis: Seq<char>, enum_name: Seq<char>, events: Seq<EventNames>) -> Seq<char> {
    derives
        + " "@
        + vis
        + " enum "@
        + enum_name
        + " { "@
        + variants_text(events)
        + " }"@
}

fn event_enum(derives: &str, vis: &str, enum_name: &str, events: &Vec<EventSpec>) -> (text: String)
    ensures
        text@ == event_enum_text(derives@, vis@, enum_name@, names_of(events@)),
{
    let mut text: String = derives.to_owned();
    text.append(" ");
    text.append(vis);
    text.append(" enum ");
    text.append(enum_name);
    text.append(" { ");
    text.append(variants(events).as_str());
    text.append(" }");
    text
}

/// The implementation of `EventKind` for the event enum.
pub open spec fn event_kind_impl_text(enum_name: Seq<char>, events: Seq<EventNames>) -> Seq<char> {
    "impl ::sourcery::event::EventKind for "@
        + enum_name
        + " { fn kind(&self) -> &'static str { match self { "@
        + kind_arms_text(events)
        + " } } }"@
}

fn event_kind_impl(enum_name: &str, events: &Vec<EventSpec>) -> (text: String)
    ensures
        text@ == event_kind_impl_text(enum_name@, names_of(events@)),
{
    let mut text: String = "impl ::sourcery::event::EventKind for ".to_owned();
    text.append(enum_name);
    text.append(" { fn kind(&self) -> &'static str { match self { ");
    text.append(kind_arms(events).as_str());
    text.append(" } } }");
    text
}

/// The implementation of `Serialize` for the event enum.
pub open spec fn serialize_impl_text(enum_name: Seq<char>, events: Seq<EventNames>) -> Seq<char> {
    "impl ::serde::Serialize for "@
        + enum_name
        + " { fn serialize<S>(&self, serializer: S) -> Result<S::Ok, S::Error> where S: ::serde::Serializer, { match self { "@
        + serialize_arms_text(events)
        + " } } }"@
}

fn serialize_impl(enum_name: &str, events: &Vec<EventSpec>) -> (text: String)
    ensures
        text@ == serialize_impl_text(enum_name@, names_of(events@)),
{
    let mut text: String = "impl ::serde::Serialize for ".to_owned();
    text.append(enum_name);
    text.append(" { fn serialize<S>(&self, serializer: S) -> Result<S::Ok, S::Error> where S: ::serde::Serializer, { match self { ");
    text.append(serialize_arms(events).as_str());
    text.append(" } } }");
    text
}

/// The implementation of `ProjectionEvent` for the event enum.
pub open spec fn projection_event_impl_text(enum_name: Seq<char>, events: Seq<EventNames>) -> Seq<char> {
    "impl ::sourcery::ProjectionEvent for "@
        + enum_name
        + " { const EVENT_KINDS: &'static [&'static str] = &["@
        + kind_consts_text(events)
        + "]; fn from_stored<S: ::sourcery::store::EventStore>( stored: &::sourcery::store::StoredEvent<S::Id, S::Position, S::Data, S::Metadata>, store: &S, ) -> Result<Self, ::sourcery::event::EventDecodeError<S::Error>> { match stored.kind() { "@
        + decode_arms_text(events)
        + " _ => Err(::sourcery::event::EventDecodeError::UnknownKind { kind: stored.kind().to_string(), expected: Self::EVENT_KINDS, }), } } }"@
}

fn projection_event_impl(enum_name: &str, events: &Vec<EventSpec>) -> (text: String)
    ensures
        text@ == projection_event_impl_text(enum_name@, names_of(events@)),
{
    let mut text: String = "impl ::sourcery::ProjectionEvent for ".to_owned();
    text.append(enum_name);
    text.append(" { const EVENT_KINDS: &'static [&'static str] = &[");
    text.append(kind_consts(events).as_str());
    text.append("]; fn from_stored<S: ::sourcery::store::EventStore>( stored: &::sourcery::store::StoredEvent<S::Id, S::Position, S::Data, S::Metadata>, store: &S, ) -> Result<Self, ::sourcery::event::EventDecodeError<S::Error>> { match stored.kind() { ");
    text.append(decode_arms(events).as_str());
    text.append(" _ => Err(::sourcery::event::EventDecodeError::UnknownKind { kind: stored.kind().to_string(), expected: Self::EVENT_KINDS, }), } } }");
    text
}

/// The `where` clause, if there is one.
pub open spec fn where_text(generics: GenericsText) -> Seq<char> {
    match generics.predicates {
        Some(predicates) => "where "@ + predicates@,
        None => Seq::empty(),
    }
}

fn where_clause(generics: &GenericsText) -> (text: String)
    ensures
        text@ == where_text(*generics),
{
    match &generics.predicates {
        Some(predicates) => {
            let mut text: String = "where ".to_owned();
            text.append(predicates.as_str());
            text
        },
        None => String::new(),
    }
}

/// The predicates of the `where` clause, ready for one more.
pub open spec fn predicates_text(generics: GenericsText) -> Seq<char> {
    match generics.predicates {
        Some(predicates) => predicates@ + ", "@,
        None => Seq::empty(),
    }
}

fn predicates(generics: &GenericsText) -> (text: String)
    ensures
        text@ == predicates_text(*generics),
{
    match &generics.predicates {
        Some(predicates) => {
            let mut text: String = predicates.clone();
            text.append(", ");
            text
        },
        None => String::new(),
    }
}

/// The derives of the event enum: always `Clone`, then those that are asked for.
pub open spec fn derives_text(derives: Option<Vec<String>>) -> Seq<char> {
    match derives {
        Some(derives) => "#[derive(Clone, "@ + joined(views(derives@), ", "@) + ")]"@,
        None => "#[derive(Clone)]"@,
    }
}

fn derives_attribute(derives: &Option<Vec<String>>) -> (text: String)
    ensures
        text@ == derives_text(*derives),
{
    match derives {
        Some(derives) => {
            let mut text: String = "#[derive(Clone, ".to_owned();
            text.append(join(derives, ", ").as_str());
            text.append(")]");
            text
        },
        None => "#[derive(Clone)]".to_owned(),
    }
}

/// The body of `create` that dispatches to the creation event.
pub open spec fn create_with_text(enum_name: Seq<char>, event: EventNames, others: Seq<char>) -> Seq<char> {
    "match event { "@
        + enum_name
        + "::"@
        + event.variant
        + "(e) => <Self as ::sourcery::Create<"@
        + event.path
        + ">>::create(e), "@
        + others
        + "}"@
}

fn create_with(enum_name: &str, event: &EventSpec, others: &str) -> (text: String)
    ensures
        text@ == create_with_text(enum_name@, event.names(), others@),
{
    let mut text: String = "match event { ".to_owned();
    text.append(enum_name);
    text.append("::");
    text.append(event.variant.as_str());
    text.append("(e) => <Self as ::sourcery::Create<");
    text.append(event.path.as_str());
    text.append(">>::create(e), ");
    text.append(others);
    text.append("}");
    text
}

/// The implementation of `Aggregate`.
pub open spec fn aggregate_trait_impl_text(ident: Seq<char>, generics: GenericsText, kind: Seq<char>, enum_name: Seq<char>, error: Seq<char>, id: Seq<char>, create: Seq<char>, events: Seq<EventNames>) -> Seq<char> {
    "impl "@
        + generics.impl_generics@
        + " ::sourcery::Aggregate for "@
        + ident
        + " "@
        + generics.ty_generics@
        + " "@
        + where_text(generics)
        + " { const KIND: &'static str = "@
        + literal_text(kind)
        + "; type Event = "@
        + enum_name
        + "; type Error = "@
        + error
        + "; type Id = "@
        + id
        + "; fn create(event: &Self::Event) -> Self { "@
        + create
        + " } fn apply(&mut self, event: &Self::Event) { match event { "@
        + apply_arms_text(events, enum_name)
        + " } } }"@
}

fn aggregate_trait_impl(ident: &str, generics: &GenericsText, kind: &str, enum_name: &str, error: &str, id: &str, create: &str, events: &Vec<EventSpec>) -> (text: String)
    ensures
        text@ == aggregate_trait_impl_text(ident@, *generics, kind@, enum_name@, error@, id@, create@, names_of(events@)),
{
    let mut text: String = "impl ".to_owned();
    text.append(generics.impl_generics.as_str());
    text.append(" ::sourcery::Aggregate for ");
    text.append(ident);
    text.append(" ");
    text.append(generics.ty_generics.as_str());
    text.append(" ");
    text.append(where_clause(generics).as_str());
    text.append(" { const KIND: &'static str = ");
    text.append(literal(kind).as_str());
    text.append("; type Event = ");
    text.append(enum_name);
    text.append("; type Error = ");
    text.append(error);
    text.append("; type Id = ");
    text.append(id);
    text.append("; fn create(event: &Self::Event) -> Self { ");
    text.append(create);
    text.append(" } fn apply(&mut self, event: &Self::Event) { match event { ");
    text.append(apply_arms(events, enum_name).as_str());
    text.append(" } } }");
    text
}

/// The implementation of `Projection`.
pub open spec fn projection_trait_impl_text(ident: Seq<char>, generics: GenericsText, kind: Seq<char>) -> Seq<char> {
    "impl "@
        + generics.impl_generics@
        + " ::sourcery::Projection for "@
        + ident
        + " "@
        + generics.ty_generics@
        + " "@
        + where_text(generics)
        + " { const KIND: &'static str = "@
        + literal_text(kind)
        + "; }"@
}

fn projection_trait_impl(ident: &str, generics: &GenericsText, kind: &str) -> (text: String)
    ensures
        text@ == projection_trait_impl_text(ident@, *generics, kind@),
{
    let mut text: String = "impl ".to_owned();
    text.append(generics.impl_generics.as_str());
    text.append(" ::sourcery::Projection for ");
    text.append(ident);
    text.append(" ");
    text.append(generics.ty_generics.as_str());
    text.append(" ");
    text.append(where_clause(generics).as_str());
    text.append(" { const KIND: &'static str = ");
    text.append(literal(kind).as_str());
    text.append("; }");
    text
}

/// The implementation of `ProjectionFilters`.
pub open spec fn filters_impl_text(ident: Seq<char>, generics: GenericsText, id: Seq<char>, instance_id: Seq<char>, metadata: Seq<char>, events: Seq<EventNames>) -> Seq<char> {
    "impl "@
        + generics.impl_generics@
        + " ::sourcery::ProjectionFilters for "@
        + ident
        + " "@
        + generics.ty_generics@
        + " where "@
        + predicates_text(generics)
        + ident
        + " "@
        + generics.ty_generics@
        + ": ::core::default::Default { type Id = "@
        + id
        + "; type InstanceId = "@
        + instance_id
        + "; type Metadata = "@
        + metadata
        + "; fn init(_instance_id: &Self::InstanceId) -> Self { Self::default() } fn filters<S>(_instance_id: &Self::InstanceId) -> ::sourcery::Filters<S, Self> where S: ::sourcery::store::EventStore<Id = Self::Id, Metadata = Self::Metadata>, { ::sourcery::Filters::new()"@
        + subscriptions_text(events)
        + " } }"@
}

fn filters_impl(ident: &str, generics: &GenericsText, id: &str, instance_id: &str, metadata: &str, events: &Vec<EventSpec>) -> (text: String)
    ensures
        text@ == filters_impl_text(ident@, *generics, id@, instance_id@, metadata@, names_of(events@)),
{
    let mut text: String = "impl ".to_owned();
    text.append(generics.impl_generics.as_str());
    text.append(" ::sourcery::ProjectionFilters for ");
    text.append(ident);
    text.append(" ");
    text.append(generics.ty_generics.as_str());
    text.append(" where ");
    text.append(predicates(generics).as_str());
    text.append(ident);
    text.append(" ");
    text.append(generics.ty_generics.as_str());
    text.append(": ::core::default::Default { type Id = ");
    text.append(id);
    text.append("; type InstanceId = ");
    text.append(instance_id);
    text.append("; type Metadata = ");
    text.append(metadata);
    text.append("; fn init(_instance_id: &Self::InstanceId) -> Self { Self::default() } fn filters<S>(_instance_id: &Self::InstanceId) -> ::sourcery::Filters<S, Self> where S: ::sourcery::store::EventStore<Id = Self::Id, Metadata = Self::Metadata>, { ::sourcery::Filters::new()");
    text.append(subscriptions(events).as_str());
    text.append(" } }");
    text
}

/// Name of the event enum: the one that is given, or that of the struct with
/// `Event` behind it.
pub open spec fn event_enum_name(args: AggregateArgs) -> Seq<char> {
    match args.event_enum {
        Some(name) => name@,
        None => args.ident@ + "Event"@,
    }
}

/// The names that stand for the event types at the given paths.
pub open spec fn path_names(paths: Seq<TypePath>) -> Seq<EventNames> {
    paths.map_values(
        |path: TypePath|
            EventNames { path: path.text@, variant: variant_name(path.segments@) },
    )
}

/// The body of `create`: it dispatches to the creation event where one is named,
/// and else applies the event to the default.
pub open spec fn create_text(args: AggregateArgs, creation: Option<EventNames>) -> Seq<char> {
    match creation {
        Some(event) => create_with_text(
            event_enum_name(args),
            event,
            if args.events@.len() > 1 {
                "_ => panic!(\"stream does not start with its creation event\"), "@
            } else {
                ""@
            },
        ),
        None => "let mut aggregate = <Self as ::core::default::Default>::default(); ::sourcery::Aggregate::apply(&mut aggregate, event); aggregate"@,
    }
}

/// The derived implementation of an aggregate, with the given kind and names.
pub open spec fn aggregate_text_with(
    args: AggregateArgs,
    kind: Seq<char>,
    events: Seq<EventNames>,
    creation: Option<EventNames>,
) -> Seq<char> {
    let name = event_enum_name(args);
    event_enum_text(derives_text(args.derives), args.vis@, name, events) + " "@
        + event_kind_impl_text(name, events) + " "@ + serialize_impl_text(name, events) + " "@
        + projection_event_impl_text(name, events) + " "@ + from_impls_text(events, name) + " "@
        + aggregate_trait_impl_text(
        args.ident@,
        args.generics,
        kind,
        name,
        args.error@,
        args.id@,
        create_text(args, creation),
        events,
    )
}

/// The derived implementation of an aggregate.
pub open spec fn aggregate_text(args: AggregateArgs) -> Seq<char> {
    aggregate_text_with(
        args,
        kind_or_default(args.ident@, args.kind),
        path_names(args.events@),
        match args.create {
            Some(path) => Some(
                EventNames { path: path.text@, variant: variant_name(path.segments@) },
            ),
            None => None,
        },
    )
}

/// Why an implementation cannot be derived.
#[derive(Debug, PartialEq, Eq, Clone, Copy, Structural)]
pub enum DeriveError {
    /// The list of event types is empty.
    NoEvents,
}

impl Message for DeriveError {
    open spec fn described_by(&self, text: Seq<char>) -> bool {
        text == "events(...) must contain at least one event type"@
    }

    fn message(&self) -> (text: String) {
        "events(...) must contain at least one event type".to_owned()
    }
}

/// Names every event type and its variant.
fn event_specs(paths: &Vec<TypePath>) -> (r: Vec<EventSpec>)
    ensures
        names_of(r@) == path_names(paths@),
{
    let mut r: Vec<EventSpec> = Vec::new();
    let mut i: usize = 0;
    while i < paths.len()
        invariant
            i <= paths@.len(),
            names_of(r@) == path_names(paths@.take(i as int)),
        decreases paths@.len() - i,
    {
        let ghost before = r@;
        r.push(EventSpec::new(&paths[i]));
        proof {
            let taken = paths@.take(i as int);
            assert(paths@.take(i + 1) == taken.push(paths@[i as int]));
            assert(names_of(r@) == names_of(before).push(r@.last().names()));
            assert(path_names(paths@.take(i + 1)) == path_names(taken).push(
                r@.last().names(),
            ));
        }
        i = i + 1;
    }
    assert(paths@.take(paths@.len() as int) == paths@);
    r
}

/// Generate the implementation of an aggregate.
///
/// # Errors
///
/// Returns [`DeriveError::NoEvents`] if there are no event types.
pub fn generate_aggregate_impl(args: &AggregateArgs) -> (r: Result<String, DeriveError>)
    ensures
        match r {
            Ok(text) => args.events@.len() > 0 && text@ == aggregate_text(*args),
            Err(DeriveError::NoEvents) => args.events@.len() == 0,
        },
{
    if args.events.len() == 0 {
        return Err(DeriveError::NoEvents);
    }
    let kind: String = default_kind(args.ident.as_str(), &args.kind);
    let events: Vec<EventSpec> = event_specs(&args.events);
    let creation: Option<EventSpec> = match &args.create {
        Some(path) => Some(EventSpec::new(path)),
        None => None,
    };
    Ok(write_aggregate_impl(args, kind.as_str(), &events, &creation))
}

/// Write the implementation of an aggregate with the given kind and names.
pub fn write_aggregate_impl(
    args: &AggregateArgs,
    kind: &str,
    events: &Vec<EventSpec>,
    creation: &Option<EventSpec>,
) -> (text: String)
    ensures
        text@ == aggregate_text_with(
            *args,
            kind@,
            names_of(events@),
            match creation {
                Some(event) => Some(event.names()),
                None => None,
            },
        ),
{
    let enum_name: String = match &args.event_enum {
        Some(name) => name.clone(),
        None => {
            let mut name: String = args.ident.clone();
            name.append("Event");
            name
        },
    };
    let derives: String = derives_attribute(&args.derives);
    let create: String = match creation {
        Some(event) => {
            let others: &str = if args.events.len() > 1 {
                "_ => panic!(\"stream does not start with its creation event\"), "
            } else {
                ""
            };
            create_with(enum_name.as_str(), event, others)
        },
        None => "let mut aggregate = <Self as ::core::default::Default>::default(); ::sourcery::Aggregate::apply(&mut aggregate, event); aggregate".to_owned(),
    };
    let mut text: String = event_enum(
        derives.as_str(),
        args.vis.as_str(),
        enum_name.as_str(),
        events,
    );
    text.append(" ");
    text.append(event_kind_impl(enum_name.as_str(), events).as_str());
    text.append(" ");
    text.append(serialize_impl(enum_name.as_str(), events).as_str());
    text.append(" ");
    text.append(projection_event_impl(enum_name.as_str(), events).as_str());
    text.append(" ");
    text.append(from_impls(events, enum_name.as_str()).as_str());
    text.append(" ");
    text.append(
        aggregate_trait_impl(
            args.ident.as_str(),
            &args.generics,
            kind,
            enum_name.as_str(),
            args.error.as_str(),
            args.id.as_str(),
            create.as_str(),
            events,
        ).as_str(),
    );
    text
}

/// Whether filters are generated for a projection: only where an attribute asks for
/// them.
pub open spec fn has_filters(args: ProjectionArgs) -> bool {
    ||| args.events@.len() > 0
    ||| args.id is Some
    ||| args.instance_id is Some
    ||| args.metadata is Some
}

/// The type that is given, or else `default`.
pub open spec fn type_or(given: Option<String>, default: Seq<char>) -> Seq<char> {
    match given {
        Some(text) => text@,
        None => default,
    }
}

fn given_or(given: &Option<String>, default: &str) -> (text: String)
    ensures
        text@ == type_or(*given, default@),
{
    match given {
        Some(text) => text.clone(),
        None => default.to_owned(),
    }
}

/// The derived implementation of a projection, with the given kind and names.
pub open spec fn projection_text_with(
    args: ProjectionArgs,
    kind: Seq<char>,
    events: Seq<EventNames>,
) -> Seq<char> {
    let projection = projection_trait_impl_text(args.ident@, args.generics, kind);
    if has_filters(args) {
        projection + " "@ + filters_impl_text(
            args.ident@,
            args.generics,
            type_or(args.id, "String"@),
            type_or(args.instance_id, "()"@),
            type_or(args.metadata, "()"@),
            events,
        )
    } else {
        projection
    }
}

/// The derived implementation of a projection.
pub open spec fn projection_text(args: ProjectionArgs) -> Seq<char> {
    projection_text_with(
        args,
        kind_or_default(args.ident@, args.kind),
        path_names(args.events@),
    )
}

/// Generate the implementation of a projection.
pub fn generate_projection_impl(args: &ProjectionArgs) -> (text: String)
    ensures
        text@ == projection_text(*args),
{
    let kind: String = default_kind(args.ident.as_str(), &args.kind);
    let events: Vec<EventSpec> = event_specs(&args.events);
    write_projection_impl(args, kind.as_str(), &events)
}

/// Write the implementation of a projection with the given kind and names.
pub fn write_projection_impl(args: &ProjectionArgs, kind: &str, events: &Vec<EventSpec>) -> (text:
    String)
    ensures
        text@ == projection_text_with(*args, kind@, names_of(events@)),
{
    let mut text: String = projection_trait_impl(args.ident.as_str(), &args.generics, kind);
    if args.events.len() == 0 && args.id.is_none() && args.instance_id.is_none()
        && args.metadata.is_none() {
        return text;
    }
    let id: String = given_or(&args.id, "String");
    let instance_id: String = given_or(&args.instance_id, "()");
    let metadata: String = given_or(&args.metadata, "()");
    text.append(" ");
    text.append(
        filters_impl(
            args.ident.as_str(),
            &args.generics,
            id.as_str(),
            instance_id.as_str(),
            metadata.as_str(),
            events,
        ).as_str(),
    );
    text
}

} // verus!
