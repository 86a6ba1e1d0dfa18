//! What stands in the source text of derived implementations.

use vstd::prelude::*;

use super::{AggregateArgs, DeriveError, EventNames, GenericsText, ProjectionArgs, TypePath};

verus! {

/// `piece` with `before` in front of it and `after` behind it.
pub open spec fn around(before: Seq<char>, piece: Seq<char>, after: Seq<char>) -> Seq<char> {
    before + piece + after
}

/// Whether `piece` stands somewhere in `text`.
pub open spec fn holds(text: Seq<char>, piece: Seq<char>) -> bool {
    exists|before: Seq<char>, after: Seq<char>| text == #[trigger] around(before, piece, after)
}

/// What stands in a text stands in every text that continues it.
proof fn lemma_holds_longer(text: Seq<char>, piece: Seq<char>, more: Seq<char>)
    requires
        holds(text, piece),
    ensures
        holds(text + more, piece),
{
    let (before, after) = choose|before: Seq<char>, after: Seq<char>|
        text == #[trigger] around(before, piece, after);
    assert(text + more == around(before, piece, after + more));
}

/// What stands in a text stands in it with two more texts behind it.
proof fn lemma_holds_further(text: Seq<char>, more: Seq<char>, end: Seq<char>)
    ensures
        forall|piece: Seq<char>|
            holds(text, piece) ==> #[trigger] holds(text + more + end, piece),
{
    assert forall|piece: Seq<char>| holds(text, piece) implies #[trigger] holds(
        text + more + end,
        piece,
    ) by {
        lemma_holds_longer(text, piece, more);
        lemma_holds_longer(text + more, piece, end);
    }
}

/// What stands in a text stands wherever that text does.
proof fn lemma_holds_deeper(text: Seq<char>, part: Seq<char>, piece: Seq<char>)
    requires
        holds(text, part),
        holds(part, piece),
    ensures
        holds(text, piece),
{
    let (before, after) = choose|before: Seq<char>, after: Seq<char>|
        text == #[trigger] around(before, part, after);
    let (first, last) = choose|first: Seq<char>, last: Seq<char>|
        part == #[trigger] around(first, piece, last);
    assert(text == around(before + first, piece, last + after));
}

/// The end of a text stands in it.
proof fn lemma_holds_end(text: Seq<char>, piece: Seq<char>)
    ensures
        holds(text + piece, piece),
{
    assert(text + piece == around(text, piece, Seq::empty()));
}

/// Every text that is joined stands in the whole.
proof fn lemma_joined_holds(texts: Seq<Seq<char>>, separator: Seq<char>, i: int)
    requires
        0 <= i < texts.len(),
    ensures
        holds(super::joined(texts, separator), texts[i]),
    decreases texts.len(),
{
    if texts.len() == 1 {
        assert(texts[0] == around(Seq::empty(), texts[0], Seq::empty()));
    } else {
        let front = super::joined(texts.drop_last(), separator);
        if i == texts.len() - 1 {
            lemma_holds_end(front + separator, texts[i]);
        } else {
            lemma_joined_holds(texts.drop_last(), separator, i);
            lemma_holds_longer(front, texts[i], separator);
            lemma_holds_longer(front + separator, texts[i], texts.last());
        }
    }
}

/// Texts are joined one after another with the separator between each two: one more text
/// adds the separator and that text, and a single text is left as it is.
pub proof fn texts_are_joined_in_order(
    texts: Seq<Seq<char>>,
    separator: Seq<char>,
    text: Seq<char>,
)
    ensures
        super::joined(Seq::empty(), separator) == Seq::<char>::empty(),
        super::joined(seq![text], separator) == text,
        texts.len() > 0 ==> super::joined(texts.push(text), separator) == super::joined(
            texts,
            separator,
        ) + separator + text,
{
    assert(texts.push(text).drop_last() == texts);
}

/// A string literal is closed by quotes, and each character of the text stands in it as
/// itself, but for quotes, backslashes and carriage returns, which stand behind a
/// backslash.
pub proof fn literals_escape_what_must_be(text: Seq<char>, ch: char)
    ensures
        super::literal_text(Seq::empty()) == seq!['"', '"'],
        super::literal_text(text).first() == '"',
        super::literal_text(text).last() == '"',
        super::literal_text(text.push(ch)) == super::literal_text(text).drop_last() + (if ch == '"'
            || ch == '\\' {
            seq!['\\', ch]
        } else if ch == '\r' {
            seq!['\\', 'r']
        } else {
            seq![ch]
        }) + seq!['"'],
{
    let grown = text.push(ch);
    assert(grown.drop_last() == text);
    assert(grown.last() == ch);
    assert(super::literal_text(text).drop_last() == seq!['"'] + super::escaped_text(text));
    assert(super::escaped_text(grown) == super::escaped_text(text) + super::escaped(ch));
}

/// The kind that the attribute gives, or else the name in kebab case.
pub open spec fn kind_of(ident: String, kind: Option<String>) -> Seq<char> {
    if kind is Some {
        kind->0@
    } else {
        super::kebab_case(ident@)
    }
}

/// The name of the event enum that the attribute gives, or else that of the struct with
/// `Event` behind it.
pub open spec fn enum_of(args: AggregateArgs) -> Seq<char> {
    if args.event_enum is Some {
        args.event_enum->0@
    } else {
        args.ident@ + "Event"@
    }
}

/// The name of the variant for the type at `path`.
pub open spec fn variant_of(path: TypePath) -> Seq<char> {
    super::upper_camel_case(
        super::joined(path.segments@.map_values(|segment: String| segment@), "_"@),
    )
}

/// The `where` clause of a struct.
pub open spec fn bounds_of(generics: GenericsText) -> Seq<char> {
    if generics.predicates is Some {
        "where "@ + generics.predicates->0@
    } else {
        Seq::empty()
    }
}

/// What stands in the implementation of `Aggregate`.
proof fn lemma_aggregate_impl_says(
    ident: Seq<char>,
    generics: GenericsText,
    kind: Seq<char>,
    name: Seq<char>,
    error: Seq<char>,
    id: Seq<char>,
    create: Seq<char>,
    events: Seq<EventNames>,
)
    ensures
        ({
            let text = super::aggregate_trait_impl_text(
                ident,
                generics,
                kind,
                name,
                error,
                id,
                create,
                events,
            );
            &&& holds(
                text,
                "impl "@ + generics.impl_generics@ + " ::sourcery::Aggregate for "@ + ident + " "@
                    + generics.ty_generics@ + " "@ + bounds_of(generics)
                    + " { const KIND: &'static str = "@,
            )
            &&& holds(text, "const KIND: &'static str = "@ + super::literal_text(kind) + ";"@)
            &&& holds(text, "type Event = "@ + name + ";"@)
            &&& holds(text, "type Error = "@ + error + ";"@)
            &&& holds(text, "type Id = "@ + id + ";"@)
            &&& holds(
                text,
                "fn create(event: &Self::Event) -> Self { "@ + create
                    + " } fn apply(&mut self, event: &Self::Event) { match event { "@
                    + super::apply_arms_text(events, name) + " } } }"@,
            )
        }),
{
    let text = super::aggregate_trait_impl_text(
        ident,
        generics,
        kind,
        name,
        error,
        id,
        create,
        events,
    );
    let literal = super::literal_text(kind);
    let start = "impl "@ + generics.impl_generics@ + " ::sourcery::Aggregate for "@ + ident + " "@
        + generics.ty_generics@ + " "@ + super::where_text(generics);
    let header = start + " { const KIND: &'static str = "@;
    let kinded = header + literal + "; type Event = "@;
    let named = kinded + name + "; type Error = "@;
    let failing = named + error + "; type Id = "@;
    let identified = failing + id + "; fn create(event: &Self::Event) -> Self { "@;
    let created = identified + create
        + " } fn apply(&mut self, event: &Self::Event) { match event { "@;
    let applied = created + super::apply_arms_text(events, name);
    assert(text == applied + " } } }"@);
    reveal_strlit("; type Event = ");
    reveal_strlit("; type Error = ");
    reveal_strlit("; type Id = ");
    reveal_strlit("; fn create(event: &Self::Event) -> Self { ");
    reveal_strlit(" { const KIND: &'static str = ");
    reveal_strlit("type Event = ");
    reveal_strlit("type Error = ");
    reveal_strlit("type Id = ");
    reveal_strlit("fn create(event: &Self::Event) -> Self { ");
    reveal_strlit("const KIND: &'static str = ");
    reveal_strlit(";");
    assert("; type Event = "@ == ";"@ + seq![' '] + "type Event = "@);
    assert("; type Error = "@ == ";"@ + seq![' '] + "type Error = "@);
    assert("; type Id = "@ == ";"@ + seq![' '] + "type Id = "@);
    assert("; fn create(event: &Self::Event) -> Self { "@ == ";"@ + seq![' ']
        + "fn create(event: &Self::Event) -> Self { "@);
    assert(" { const KIND: &'static str = "@ == seq![' ', '{', ' ']
        + "const KIND: &'static str = "@);
    lemma_holds_further(kinded, name, "; type Error = "@);
    lemma_holds_further(named, error, "; type Id = "@);
    lemma_holds_further(failing, id, "; fn create(event: &Self::Event) -> Self { "@);
    lemma_holds_further(
        identified,
        create,
        " } fn apply(&mut self, event: &Self::Event) { match event { "@,
    );
    lemma_holds_further(created, super::apply_arms_text(events, name), " } } }"@);
    lemma_holds_further(header, literal, "; type Event = "@);
    assert(header == around(Seq::empty(), header, Seq::empty()));
    assert(kinded == around(
        start + seq![' ', '{', ' '],
        "const KIND: &'static str = "@ + literal + ";"@,
        seq![' '] + "type Event = "@,
    ));
    assert(named == around(
        header + literal + ";"@ + seq![' '],
        "type Event = "@ + name + ";"@,
        seq![' '] + "type Error = "@,
    ));
    assert(failing == around(
        kinded + name + ";"@ + seq![' '],
        "type Error = "@ + error + ";"@,
        seq![' '] + "type Id = "@,
    ));
    assert(identified == around(
        named + error + ";"@ + seq![' '],
        "type Id = "@ + id + ";"@,
        seq![' '] + "fn create(event: &Self::Event) -> Self { "@,
    ));
    assert(text == around(
        failing + id + ";"@ + seq![' '],
        "fn create(event: &Self::Event) -> Self { "@ + create
            + " } fn apply(&mut self, event: &Self::Event) { match event { "@
            + super::apply_arms_text(events, name) + " } } }"@,
        Seq::empty(),
    ));
}

/// The variant of each event type.
pub open spec fn variants_of(paths: Seq<TypePath>) -> Seq<Seq<char>> {
    Seq::new(
        paths.len(),
        |i: int| variant_of(paths[i]) + "("@ + paths[i].text@ + ")"@,
    )
}

/// The kind of each event type.
pub open spec fn kinds_of(paths: Seq<TypePath>) -> Seq<Seq<char>> {
    Seq::new(
        paths.len(),
        |i: int| paths[i].text@ + "::KIND"@,
    )
}

/// What `kind` answers for each variant: the kind of its event type.
pub open spec fn kind_arms_of(paths: Seq<TypePath>) -> Seq<Seq<char>> {
    Seq::new(
        paths.len(),
        |i: int| "Self::"@ + variant_of(paths[i]) + "(_) => "@ + paths[i].text@ + "::KIND"@,
    )
}

/// How each variant is serialised: as the event in it.
pub open spec fn serialize_arms_of(paths: Seq<TypePath>) -> Seq<Seq<char>> {
    Seq::new(
        paths.len(),
        |i: int| "Self::"@ + variant_of(paths[i]) + "(inner) => ::serde::Serialize::serialize(inner, serializer)"@,
    )
}

/// How each kind is restored: as the variant of its event type.
pub open spec fn decode_arms_of(paths: Seq<TypePath>) -> Seq<Seq<char>> {
    Seq::new(
        paths.len(),
        |i: int| paths[i].text@ + "::KIND => Ok(Self::"@ + variant_of(paths[i]) + "(store.decode_event(stored).map_err(::sourcery::event::EventDecodeError::Store)?)),"@,
    )
}

/// How each event type becomes a variant: that which holds it.
pub open spec fn conversions_of(paths: Seq<TypePath>, name: Seq<char>) -> Seq<Seq<char>> {
    Seq::new(
        paths.len(),
        |i: int| "impl From<"@ + paths[i].text@ + "> for "@ + name + " { fn from(event: "@ + paths[i].text@ + ") -> Self { Self::"@ + variant_of(paths[i]) + "(event) } }"@,
    )
}

/// How each variant is applied: as the event in it.
pub open spec fn apply_arms_of(paths: Seq<TypePath>, name: Seq<char>) -> Seq<Seq<char>> {
    Seq::new(
        paths.len(),
        |i: int| name + "::"@ + variant_of(paths[i]) + "(e) => ::sourcery::Apply::apply(self, e)"@,
    )
}

/// The subscription to each event type.
pub open spec fn subscriptions_of(paths: Seq<TypePath>) -> Seq<Seq<char>> {
    Seq::new(
        paths.len(),
        |i: int| ".event::<"@ + paths[i].text@ + ">()"@,
    )
}

/// An aggregate is refused where it has no event types, and only there.
pub proof fn aggregates_need_an_event(args: AggregateArgs, r: Result<String, DeriveError>)
    requires
        call_ensures(super::generate_aggregate_impl, (&args,), r),
    ensures
        r is Err <==> args.events@.len() == 0,
{
}

/// The parts of a derived aggregate stand in its text.
proof fn lemma_aggregate_parts(args: AggregateArgs)
    ensures
        ({
            let text = super::aggregate_text(args);
            let name = enum_of(args);
            let events = super::path_names(args.events@);
            &&& holds(
                text,
                super::event_enum_text(super::derives_text(args.derives), args.vis@, name, events),
            )
            &&& holds(text, super::event_kind_impl_text(name, events))
            &&& holds(text, super::serialize_impl_text(name, events))
            &&& holds(text, super::projection_event_impl_text(name, events))
            &&& holds(text, super::from_impls_text(events, name))
            &&& holds(
                text,
                super::aggregate_trait_impl_text(
                    args.ident@,
                    args.generics,
                    kind_of(args.ident, args.kind),
                    name,
                    args.error@,
                    args.id@,
                    super::create_text(
                        args,
                        match args.create {
                            Some(path) => Some(
                                EventNames { path: path.text@, variant: variant_of(path) },
                            ),
                            None => None,
                        },
                    ),
                    events,
                ),
            )
        }),
{
    let name = enum_of(args);
    let events = super::path_names(args.events@);
    let creation = match args.create {
        Some(path) => Some(EventNames { path: path.text@, variant: variant_of(path) }),
        None => None,
    };
    if let Some(path) = args.create {
        assert(super::views(path.segments@) == path.segments@.map_values(
            |segment: String| segment@,
        ));
    }
    let first = super::event_enum_text(super::derives_text(args.derives), args.vis@, name, events);
    let second = super::event_kind_impl_text(name, events);
    let third = super::serialize_impl_text(name, events);
    let fourth = super::projection_event_impl_text(name, events);
    let fifth = super::from_impls_text(events, name);
    let sixth = super::aggregate_trait_impl_text(
        args.ident@,
        args.generics,
        kind_of(args.ident, args.kind),
        name,
        args.error@,
        args.id@,
        super::create_text(args, creation),
        events,
    );
    let two = first + " "@ + second;
    let three = two + " "@ + third;
    let four = three + " "@ + fourth;
    let five = four + " "@ + fifth;
    assert(super::aggregate_text(args) == five + " "@ + sixth);
    assert(first == around(Seq::empty(), first, Seq::empty()));
    lemma_holds_end(first + " "@, second);
    lemma_holds_end(two + " "@, third);
    lemma_holds_end(three + " "@, fourth);
    lemma_holds_end(four + " "@, fifth);
    lemma_holds_end(five + " "@, sixth);
    lemma_holds_further(first, " "@, second);
    lemma_holds_further(two, " "@, third);
    lemma_holds_further(three, " "@, fourth);
    lemma_holds_further(four, " "@, fifth);
    lemma_holds_further(five, " "@, sixth);
}

/// The variant that stands for the type at a path.
proof fn lemma_path_names(paths: Seq<TypePath>)
    ensures
        super::path_names(paths).len() == paths.len(),
        forall|i: int|
            0 <= i < paths.len() ==> {
                &&& (#[trigger] super::path_names(paths)[i]).path == paths[i].text@
                &&& super::path_names(paths)[i].variant == variant_of(paths[i])
            },
{
    assert forall|i: int| 0 <= i < paths.len() implies (
    #[trigger] super::path_names(paths)[i]).variant == variant_of(paths[i]) by {
        assert(super::views(paths[i].segments@) == paths[i].segments@.map_values(
            |segment: String| segment@,
        ));
    }
}

/// The implementation of `Aggregate` gives each of its constants and types what the
/// attribute says: the kind, or else the name in kebab case, as a literal; the event enum;
/// the error; the ID. It is for the struct with its generics and its bounds.
pub proof fn aggregates_have_the_types_they_name(args: AggregateArgs, text: String)
    requires
        call_ensures(super::generate_aggregate_impl, (&args,), Ok(text)),
    ensures
        holds(
            text@,
            "impl "@ + args.generics.impl_generics@ + " ::sourcery::Aggregate for "@ + args.ident@
                + " "@ + args.generics.ty_generics@ + " "@ + bounds_of(args.generics)
                + " { const KIND: &'static str = "@,
        ),
        holds(
            text@,
            "const KIND: &'static str = "@ + super::literal_text(kind_of(args.ident, args.kind))
                + ";"@,
        ),
        holds(text@, "type Event = "@ + enum_of(args) + ";"@),
        holds(text@, "type Error = "@ + args.error@ + ";"@),
        holds(text@, "type Id = "@ + args.id@ + ";"@),
{
    lemma_aggregate_parts(args);
    let name = enum_of(args);
    let kind = kind_of(args.ident, args.kind);
    let events = super::path_names(args.events@);
    let create = super::create_text(
        args,
        match args.create {
            Some(path) => Some(EventNames { path: path.text@, variant: variant_of(path) }),
            None => None,
        },
    );
    let part = super::aggregate_trait_impl_text(
        args.ident@,
        args.generics,
        kind,
        name,
        args.error@,
        args.id@,
        create,
        events,
    );
    lemma_aggregate_impl_says(
        args.ident@,
        args.generics,
        kind,
        name,
        args.error@,
        args.id@,
        create,
        events,
    );
    lemma_holds_deeper(
        text@,
        part,
        "impl "@ + args.generics.impl_generics@ + " ::sourcery::Aggregate for "@ + args.ident@
            + " "@ + args.generics.ty_generics@ + " "@ + bounds_of(args.generics)
            + " { const KIND: &'static str = "@,
    );
    lemma_holds_deeper(
        text@,
        part,
        "const KIND: &'static str = "@ + super::literal_text(kind) + ";"@,
    );
    lemma_holds_deeper(text@, part, "type Event = "@ + name + ";"@);
    lemma_holds_deeper(text@, part, "type Error = "@ + args.error@ + ";"@);
    lemma_holds_deeper(text@, part, "type Id = "@ + args.id@ + ";"@);
}

/// An aggregate is created by its creation event where one is named, with a panic for any
/// other event there may be, and else by applying the first event to the default; each
/// variant is then applied as the event in it.
pub proof fn aggregates_are_created_and_applied(args: AggregateArgs, text: String)
    requires
        call_ensures(super::generate_aggregate_impl, (&args,), Ok(text)),
    ensures
        holds(
            text@,
            "fn create(event: &Self::Event) -> Self { "@ + (if args.create is Some {
                "match event { "@ + enum_of(args) + "::"@ + variant_of(args.create->0)
                    + "(e) => <Self as ::sourcery::Create<"@ + args.create->0.text@
                    + ">>::create(e), "@ + (if args.events@.len() > 1 {
                    "_ => panic!(\"stream does not start with its creation event\"), "@
                } else {
                    ""@
                }) + "}"@
            } else {
                "let mut aggregate = <Self as ::core::default::Default>::default(); ::sourcery::Aggregate::apply(&mut aggregate, event); aggregate"@
            }) + " } fn apply(&mut self, event: &Self::Event) { match event { "@ + super::joined(
                apply_arms_of(args.events@, enum_of(args)),
                ", "@,
            ) + " } } }"@,
        ),
{
    lemma_aggregate_parts(args);
    lemma_path_names(args.events@);
    let name = enum_of(args);
    let kind = kind_of(args.ident, args.kind);
    let events = super::path_names(args.events@);
    let create = super::create_text(
        args,
        match args.create {
            Some(path) => Some(EventNames { path: path.text@, variant: variant_of(path) }),
            None => None,
        },
    );
    let part = super::aggregate_trait_impl_text(
        args.ident@,
        args.generics,
        kind,
        name,
        args.error@,
        args.id@,
        create,
        events,
    );
    lemma_aggregate_impl_says(
        args.ident@,
        args.generics,
        kind,
        name,
        args.error@,
        args.id@,
        create,
        events,
    );
    assert(events.map_values(|event: EventNames| super::apply_arm_text(event, name))
        == apply_arms_of(args.events@, name));
    lemma_holds_deeper(
        text@,
        part,
        "fn create(event: &Self::Event) -> Self { "@ + create
            + " } fn apply(&mut self, event: &Self::Event) { match event { "@
            + super::apply_arms_text(events, name) + " } } }"@,
    );
}

/// The event enum has the derives that were asked for besides `Clone`, the visibility of
/// the struct, its own name, and a variant for each event type, in their order.
pub proof fn event_enums_have_a_variant_for_each_event(args: AggregateArgs, text: String)
    requires
        call_ensures(super::generate_aggregate_impl, (&args,), Ok(text)),
    ensures
        holds(
            text@,
            (if args.derives is Some {
                "#[derive(Clone, "@ + super::joined(
                    args.derives->0@.map_values(|derive: String| derive@),
                    ", "@,
                ) + ")]"@
            } else {
                "#[derive(Clone)]"@
            }) + " "@ + args.vis@ + " enum "@ + enum_of(args) + " { "@ + super::joined(
                variants_of(args.events@),
                ", "@,
            ) + " }"@,
        ),
{
    lemma_aggregate_parts(args);
    lemma_path_names(args.events@);
    assert(super::path_names(args.events@).map_values(
        |event: EventNames| super::variant_text(event),
    ) == variants_of(args.events@));
    if let Some(derives) = args.derives {
        assert(super::views(derives@) == derives@.map_values(|derive: String| derive@));
    }
}

/// The event enum tells the kind of the event in each variant, and is serialised as that
/// event.
pub proof fn event_enums_stand_for_their_events(args: AggregateArgs, text: String)
    requires
        call_ensures(super::generate_aggregate_impl, (&args,), Ok(text)),
    ensures
        holds(
            text@,
            "impl ::sourcery::event::EventKind for "@ + enum_of(args)
                + " { fn kind(&self) -> &'static str { match self { "@ + super::joined(
                kind_arms_of(args.events@),
                ", "@,
            ) + " } } }"@,
        ),
        holds(
            text@,
            "impl ::serde::Serialize for "@ + enum_of(args)
                + " { fn serialize<S>(&self, serializer: S) -> Result<S::Ok, S::Error> where S: ::serde::Serializer, { match self { "@
                + super::joined(serialize_arms_of(args.events@), ", "@) + " } } }"@,
        ),
{
    lemma_aggregate_parts(args);
    lemma_path_names(args.events@);
    assert(super::path_names(args.events@).map_values(
        |event: EventNames| super::kind_arm_text(event),
    ) == kind_arms_of(args.events@));
    assert(super::path_names(args.events@).map_values(
        |event: EventNames| super::serialize_arm_text(event),
    ) == serialize_arms_of(args.events@));
}

/// The event enum lists the kinds of its events in their order, restores what is stored
/// under each of them as its variant, refuses every other kind, and is made of any of its
/// events.
pub proof fn event_enums_are_restored_by_kind(args: AggregateArgs, text: String)
    requires
        call_ensures(super::generate_aggregate_impl, (&args,), Ok(text)),
    ensures
        holds(
            text@,
            "impl ::sourcery::ProjectionEvent for "@ + enum_of(args)
                + " { const EVENT_KINDS: &'static [&'static str] = &["@ + super::joined(
                kinds_of(args.events@),
                ", "@,
            )
                + "]; fn from_stored<S: ::sourcery::store::EventStore>( stored: &::sourcery::store::StoredEvent<S::Id, S::Position, S::Data, S::Metadata>, store: &S, ) -> Result<Self, ::sourcery::event::EventDecodeError<S::Error>> { match stored.kind() { "@
                + super::joined(decode_arms_of(args.events@), " "@)
                + " _ => Err(::sourcery::event::EventDecodeError::UnknownKind { kind: stored.kind().to_string(), expected: Self::EVENT_KINDS, }), } } }"@,
        ),
        holds(text@, super::joined(conversions_of(args.events@, enum_of(args)), " "@)),
{
    lemma_aggregate_parts(args);
    lemma_path_names(args.events@);
    let name = enum_of(args);
    assert(super::path_names(args.events@).map_values(
        |event: EventNames| super::kind_const_text(event),
    ) == kinds_of(args.events@));
    assert(super::path_names(args.events@).map_values(
        |event: EventNames| super::decode_arm_text(event),
    ) == decode_arms_of(args.events@));
    assert(super::path_names(args.events@).map_values(
        |event: EventNames| super::from_impl_text(event, name),
    ) == conversions_of(args.events@, name));
}

/// Each event type has its own place in the text: a variant that holds it, the kind of
/// that variant, how it is serialised, restored, converted and applied.
pub proof fn each_event_has_its_place(args: AggregateArgs, text: String, i: int)
    requires
        call_ensures(super::generate_aggregate_impl, (&args,), Ok(text)),
        0 <= i < args.events@.len(),
    ensures
        ({
            let path = args.events@[i].text@;
            let variant = variant_of(args.events@[i]);
            let name = enum_of(args);
            &&& holds(text@, variant + "("@ + path + ")"@)
            &&& holds(text@, path + "::KIND"@)
            &&& holds(text@, "Self::"@ + variant + "(_) => "@ + path + "::KIND"@)
            &&& holds(
                text@,
                "Self::"@ + variant
                    + "(inner) => ::serde::Serialize::serialize(inner, serializer)"@,
            )
            &&& holds(
                text@,
                path + "::KIND => Ok(Self::"@ + variant
                    + "(store.decode_event(stored).map_err(::sourcery::event::EventDecodeError::Store)?)),"@,
            )
            &&& holds(
                text@,
                "impl From<"@ + path + "> for "@ + name + " { fn from(event: "@ + path
                    + ") -> Self { Self::"@ + variant + "(event) } }"@,
            )
            &&& holds(
                text@,
                name + "::"@ + variant + "(e) => ::sourcery::Apply::apply(self, e)"@,
            )
        }),
{
    let paths = args.events@;
    let name = enum_of(args);
    let events = super::path_names(paths);
    lemma_path_names(paths);
    lemma_aggregate_parts(args);
    event_enums_have_a_variant_for_each_event(args, text);
    event_enums_stand_for_their_events(args, text);
    event_enums_are_restored_by_kind(args, text);
    aggregates_are_created_and_applied(args, text);
    assert(events.map_values(|event: EventNames| super::variant_text(event)) == variants_of(paths));
    assert(events.map_values(|event: EventNames| super::kind_arm_text(event)) == kind_arms_of(
        paths,
    ));
    assert(events.map_values(|event: EventNames| super::serialize_arm_text(event))
        == serialize_arms_of(paths));
    assert(events.map_values(|event: EventNames| super::kind_const_text(event)) == kinds_of(paths));
    assert(events.map_values(|event: EventNames| super::decode_arm_text(event)) == decode_arms_of(
        paths,
    ));
    assert(events.map_values(|event: EventNames| super::apply_arm_text(event, name))
        == apply_arms_of(paths, name));

    let variants = super::variants_text(events);
    let derives = super::derives_text(args.derives);
    lemma_joined_holds(variants_of(paths), ", "@, i);
    lemma_holds_end(derives + " "@ + args.vis@ + " enum "@ + name + " { "@, variants);
    let part = super::event_enum_text(derives, args.vis@, name, events);
    lemma_holds_longer(
        derives + " "@ + args.vis@ + " enum "@ + name + " { "@ + variants,
        variants,
        " }"@,
    );
    lemma_holds_deeper(text@, part, variants);
    lemma_holds_deeper(text@, variants, variants_of(paths)[i]);

    let kinds = super::kind_arms_text(events);
    let part = super::event_kind_impl_text(name, events);
    let front = "impl ::sourcery::event::EventKind for "@ + name
        + " { fn kind(&self) -> &'static str { match self { "@;
    lemma_joined_holds(kind_arms_of(paths), ", "@, i);
    lemma_holds_end(front, kinds);
    lemma_holds_longer(front + kinds, kinds, " } } }"@);
    lemma_holds_deeper(text@, part, kinds);
    lemma_holds_deeper(text@, kinds, kind_arms_of(paths)[i]);

    let arms = super::serialize_arms_text(events);
    let part = super::serialize_impl_text(name, events);
    let front = "impl ::serde::Serialize for "@ + name
        + " { fn serialize<S>(&self, serializer: S) -> Result<S::Ok, S::Error> where S: ::serde::Serializer, { match self { "@;
    lemma_joined_holds(serialize_arms_of(paths), ", "@, i);
    lemma_holds_end(front, arms);
    lemma_holds_longer(front + arms, arms, " } } }"@);
    lemma_holds_deeper(text@, part, arms);
    lemma_holds_deeper(text@, arms, serialize_arms_of(paths)[i]);

    let consts = super::kind_consts_text(events);
    let decodes = super::decode_arms_text(events);
    let part = super::projection_event_impl_text(name, events);
    let front = "impl ::sourcery::ProjectionEvent for "@ + name
        + " { const EVENT_KINDS: &'static [&'static str] = &["@;
    let middle = "]; fn from_stored<S: ::sourcery::store::EventStore>( stored: &::sourcery::store::StoredEvent<S::Id, S::Position, S::Data, S::Metadata>, store: &S, ) -> Result<Self, ::sourcery::event::EventDecodeError<S::Error>> { match stored.kind() { "@;
    let end = " _ => Err(::sourcery::event::EventDecodeError::UnknownKind { kind: stored.kind().to_string(), expected: Self::EVENT_KINDS, }), } } }"@;
    assert(part == front + consts + middle + decodes + end);
    lemma_joined_holds(kinds_of(paths), ", "@, i);
    lemma_joined_holds(decode_arms_of(paths), " "@, i);
    lemma_holds_end(front, consts);
    lemma_holds_further(front + consts, middle, decodes);
    lemma_holds_longer(front + consts + middle + decodes, consts, end);
    lemma_holds_end(front + consts + middle, decodes);
    lemma_holds_longer(front + consts + middle + decodes, decodes, end);
    lemma_holds_deeper(text@, part, consts);
    lemma_holds_deeper(text@, part, decodes);
    lemma_holds_deeper(text@, consts, kinds_of(paths)[i]);
    lemma_holds_deeper(text@, decodes, decode_arms_of(paths)[i]);

    lemma_joined_holds(conversions_of(paths, name), " "@, i);
    lemma_holds_deeper(
        text@,
        super::joined(conversions_of(paths, name), " "@),
        conversions_of(paths, name)[i],
    );

    lemma_applied_in_aggregate(args, text);
    lemma_joined_holds(apply_arms_of(paths, name), ", "@, i);
    lemma_holds_deeper(
        text@,
        super::joined(apply_arms_of(paths, name), ", "@),
        apply_arms_of(paths, name)[i],
    );
}

/// The arms of `apply` stand in the text of an aggregate.
proof fn lemma_applied_in_aggregate(args: AggregateArgs, text: String)
    requires
        call_ensures(super::generate_aggregate_impl, (&args,), Ok(text)),
    ensures
        holds(text@, super::joined(apply_arms_of(args.events@, enum_of(args)), ", "@)),
{
    let arms = super::joined(apply_arms_of(args.events@, enum_of(args)), ", "@);
    aggregates_are_created_and_applied(args, text);
    let create = if args.create is Some {
        "match event { "@ + enum_of(args) + "::"@ + variant_of(args.create->0)
            + "(e) => <Self as ::sourcery::Create<"@ + args.create->0.text@ + ">>::create(e), "@ + (
        if args.events@.len() > 1 {
            "_ => panic!(\"stream does not start with its creation event\"), "@
        } else {
            ""@
        }) + "}"@
    } else {
        "let mut aggregate = <Self as ::core::default::Default>::default(); ::sourcery::Aggregate::apply(&mut aggregate, event); aggregate"@
    };
    let front = "fn create(event: &Self::Event) -> Self { "@ + create
        + " } fn apply(&mut self, event: &Self::Event) { match event { "@;
    lemma_holds_end(front, arms);
    lemma_holds_longer(front + arms, arms, " } } }"@);
    lemma_holds_deeper(text@, front + arms + " } } }"@, arms);
}

/// The implementation of `Projection` is for the struct with its generics and its bounds,
/// and has the kind that the attribute gives, or else the name in kebab case, as a literal.
pub proof fn projections_have_their_kind(args: ProjectionArgs, text: String)
    requires
        call_ensures(super::generate_projection_impl, (&args,), text),
    ensures
        holds(
            text@,
            "impl "@ + args.generics.impl_generics@ + " ::sourcery::Projection for "@ + args.ident@
                + " "@ + args.generics.ty_generics@ + " "@ + bounds_of(args.generics)
                + " { const KIND: &'static str = "@ + super::literal_text(
                kind_of(args.ident, args.kind),
            ) + "; }"@,
        ),
{
    let part = super::projection_trait_impl_text(
        args.ident@,
        args.generics,
        kind_of(args.ident, args.kind),
    );
    assert(part == around(Seq::empty(), part, Seq::empty()));
    if super::has_filters(args) {
        let more = super::filters_impl_text(
            args.ident@,
            args.generics,
            super::type_or(args.id, "String"@),
            super::type_or(args.instance_id, "()"@),
            super::type_or(args.metadata, "()"@),
            super::path_names(args.events@),
        );
        lemma_holds_further(part, " "@, more);
    }
}

/// A projection has filters exactly where the attribute names events or one of the types
/// that filters need; where it does not, the implementation of `Projection` is all there
/// is. The filters have the types that the attribute gives, with defaults for those it
/// leaves out, start from the default of the struct, and subscribe to each of the events,
/// in their order.
pub proof fn projections_have_the_filters_they_ask_for(args: ProjectionArgs, text: String)
    requires
        call_ensures(super::generate_projection_impl, (&args,), text),
    ensures
        args.events@.len() > 0 || args.id is Some || args.instance_id is Some || args.metadata is Some
            ==> holds(
            text@,
            "impl "@ + args.generics.impl_generics@ + " ::sourcery::ProjectionFilters for "@
                + args.ident@ + " "@ + args.generics.ty_generics@ + " where "@ + (
            if args.generics.predicates is Some {
                args.generics.predicates->0@ + ", "@
            } else {
                Seq::empty()
            }) + args.ident@ + " "@ + args.generics.ty_generics@
                + ": ::core::default::Default { type Id = "@ + (if args.id is Some {
                args.id->0@
            } else {
                "String"@
            }) + "; type InstanceId = "@ + (if args.instance_id is Some {
                args.instance_id->0@
            } else {
                "()"@
            }) + "; type Metadata = "@ + (if args.metadata is Some {
                args.metadata->0@
            } else {
                "()"@
            })
                + "; fn init(_instance_id: &Self::InstanceId) -> Self { Self::default() } fn filters<S>(_instance_id: &Self::InstanceId) -> ::sourcery::Filters<S, Self> where S: ::sourcery::store::EventStore<Id = Self::Id, Metadata = Self::Metadata>, { ::sourcery::Filters::new()"@
                + super::joined(subscriptions_of(args.events@), ""@) + " } }"@,
        ),
        args.events@.len() == 0 && args.id is None && args.instance_id is None
            && args.metadata is None ==> text@ == "impl "@ + args.generics.impl_generics@
            + " ::sourcery::Projection for "@ + args.ident@ + " "@ + args.generics.ty_generics@
            + " "@ + bounds_of(args.generics) + " { const KIND: &'static str = "@
            + super::literal_text(kind_of(args.ident, args.kind)) + "; }"@,
{
    lemma_path_names(args.events@);
    assert(super::path_names(args.events@).map_values(
        |event: EventNames| super::subscription_text(event),
    ) == subscriptions_of(args.events@));
    if super::has_filters(args) {
        let part = super::projection_trait_impl_text(
            args.ident@,
            args.generics,
            kind_of(args.ident, args.kind),
        );
        let more = super::filters_impl_text(
            args.ident@,
            args.generics,
            super::type_or(args.id, "String"@),
            super::type_or(args.instance_id, "()"@),
            super::type_or(args.metadata, "()"@),
            super::path_names(args.events@),
        );
        lemma_holds_end(part + " "@, more);
    }
}

} // verus!
