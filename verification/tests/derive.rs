//! Source text of derived implementations.

use sourcery::derive::{
    default_kind, generate_aggregate_impl, generate_projection_impl, path_to_pascal_ident,
    AggregateArgs, DeriveError, EventSpec, GenericsText, ProjectionArgs, TypePath,
};
use sourcery::message::Message;

/// Removes whitespace.
fn compact(text: &str) -> String {
    text.chars().filter(|c| !c.is_whitespace()).collect()
}

fn path(segments: &[&str]) -> TypePath {
    TypePath {
        segments: segments.iter().map(|segment| segment.to_string()).collect(),
        text: segments.join("::"),
    }
}

fn plain() -> GenericsText {
    GenericsText {
        impl_generics: String::new(),
        ty_generics: String::new(),
        predicates: None,
    }
}

fn account(events: Vec<TypePath>) -> AggregateArgs {
    AggregateArgs {
        ident: "Account".to_string(),
        vis: "pub".to_string(),
        generics: plain(),
        id: "String".to_string(),
        error: "String".to_string(),
        events,
        create: None,
        kind: None,
        event_enum: None,
        derives: None,
    }
}

fn ledger(events: Vec<TypePath>) -> ProjectionArgs {
    ProjectionArgs {
        ident: "AccountLedger".to_string(),
        generics: plain(),
        kind: None,
        id: None,
        instance_id: None,
        metadata: None,
        events,
    }
}

#[test]
fn generate_aggregate_impl_uses_default_kind_and_event_enum() {
    let expanded = generate_aggregate_impl(&account(vec![path(&["FundsDeposited"])])).unwrap();
    let compact = compact(&expanded);

    assert!(compact.contains("enumAccountEvent"));
    assert!(compact.contains("impl::sourcery::AggregateforAccount"));
    assert!(compact.contains("constKIND:&'staticstr=\"account\""));
}

#[test]
fn generate_aggregate_impl_respects_kind_and_event_enum_overrides() {
    let mut args = account(vec![path(&["FundsDeposited"])]);
    args.kind = Some("bank-account".to_string());
    args.event_enum = Some("BankAccountEvent".to_string());

    let expanded = generate_aggregate_impl(&args).unwrap();
    let compact = compact(&expanded);

    assert!(compact.contains("enumBankAccountEvent"));
    assert!(compact.contains("constKIND:&'staticstr=\"bank-account\""));
}

#[test]
fn generate_aggregate_impl_emits_error_on_empty_events_list() {
    let error = generate_aggregate_impl(&account(vec![])).unwrap_err();
    let compact = compact(&error.message());

    assert!(compact.contains("events(...)mustcontainatleastoneeventtype"));
    assert!(matches!(error, DeriveError::NoEvents));
}

#[test]
fn generate_projection_impl_uses_default_kind() {
    let expanded = generate_projection_impl(&ledger(vec![]));
    let compact = compact(&expanded);

    assert!(compact.contains("impl::sourcery::ProjectionforAccountLedger"));
    assert!(compact.contains("constKIND:&'staticstr=\"account-ledger\""));
}

#[test]
fn generate_projection_impl_respects_kind_override() {
    let mut args = ledger(vec![]);
    args.kind = Some("custom-ledger".to_string());

    let expanded = generate_projection_impl(&args);
    let compact = compact(&expanded);

    assert!(compact.contains("constKIND:&'staticstr=\"custom-ledger\""));
}

#[test]
fn generate_projection_impl_with_events_generates_projection_filters() {
    let args = ledger(vec![path(&["FundsDeposited"]), path(&["FundsWithdrawn"])]);

    let expanded = generate_projection_impl(&args);
    let compact = compact(&expanded);

    assert!(compact.contains("impl::sourcery::ProjectionFiltersforAccountLedger"));
    assert!(compact.contains("typeId=String"));
    assert!(compact.contains("typeInstanceId=()"));
    assert!(compact.contains("typeMetadata=()"));
    assert!(compact.contains("event::<FundsDeposited>()"));
    assert!(compact.contains("event::<FundsWithdrawn>()"));
}

#[test]
fn generate_projection_impl_respects_projection_filter_type_overrides() {
    let mut args = ledger(vec![path(&["FundsDeposited"])]);
    args.id = Some("uuid::Uuid".to_string());
    args.instance_id = Some("String".to_string());
    args.metadata = Some("EventMetadata".to_string());

    let expanded = generate_projection_impl(&args);
    let compact = compact(&expanded);

    assert!(compact.contains("typeId=uuid::Uuid"));
    assert!(compact.contains("typeInstanceId=String"));
    assert!(compact.contains("typeMetadata=EventMetadata"));
}

#[test]
fn kinds_default_to_kebab_case() {
    assert_eq!(default_kind("AccountLedger", &None), "account-ledger");
    assert_eq!(default_kind("HTTPRequestLog", &None), "http-request-log");
    assert_eq!(default_kind("AccountLedger", &Some("as-is_Given".to_string())), "as-is_Given");
}

#[test]
fn variants_are_named_after_the_whole_path() {
    let segments = vec!["orders".to_string(), "v2".to_string(), "OrderPlaced".to_string()];
    assert_eq!(path_to_pascal_ident(&segments), "OrdersV2OrderPlaced");
    let spec = EventSpec::new(&path(&["billing", "Paid"]));
    assert_eq!(spec.path, "billing::Paid");
    assert_eq!(spec.variant, "BillingPaid");
}

#[test]
fn the_event_enum_has_a_variant_per_event() {
    let args = account(vec![path(&["FundsDeposited"]), path(&["audit", "Flagged"])]);
    let compact = compact(&generate_aggregate_impl(&args).unwrap());
    assert!(compact.contains("FundsDeposited(FundsDeposited)"));
    assert!(compact.contains("AuditFlagged(audit::Flagged)"));
}

#[test]
fn kinds_are_written_as_string_literals() {
    let mut args = ledger(vec![]);
    args.kind = Some("say \"hi\" \\ there".to_string());
    let expanded = generate_projection_impl(&args);
    assert!(expanded.contains(r#""say \"hi\" \\ there""#));
}

#[test]
fn projections_read_in_full() {
    assert_eq!(
        compact(&generate_projection_impl(&ledger(vec![]))),
        "impl::sourcery::ProjectionforAccountLedger{constKIND:&'staticstr=\"account-ledger\";}"
    );
    let mut args = ledger(vec![path(&["FundsDeposited"])]);
    args.generics = GenericsText {
        impl_generics: "<T: Clone>".to_string(),
        ty_generics: "<T>".to_string(),
        predicates: Some("T: Send".to_string()),
    };
    assert_eq!(
        compact(&generate_projection_impl(&args)),
        "impl<T:Clone>::sourcery::ProjectionforAccountLedger<T>whereT:Send\
         {constKIND:&'staticstr=\"account-ledger\";}\
         impl<T:Clone>::sourcery::ProjectionFiltersforAccountLedger<T>\
         whereT:Send,AccountLedger<T>:::core::default::Default\
         {typeId=String;typeInstanceId=();typeMetadata=();\
         fninit(_instance_id:&Self::InstanceId)->Self{Self::default()}\
         fnfilters<S>(_instance_id:&Self::InstanceId)->::sourcery::Filters<S,Self>\
         whereS:::sourcery::store::EventStore<Id=Self::Id,Metadata=Self::Metadata>,\
         {::sourcery::Filters::new().event::<FundsDeposited>()}}"
    );
}

#[test]
fn aggregates_read_in_full() {
    let mut args = account(vec![path(&["Deposited"]), path(&["Opened"])]);
    args.create = Some(path(&["Opened"]));
    args.derives = Some(vec!["Debug".to_string(), "PartialEq".to_string()]);
    assert_eq!(
        compact(&generate_aggregate_impl(&args).unwrap()),
        "#[derive(Clone,Debug,PartialEq)]pubenumAccountEvent{Deposited(Deposited),Opened(Opened)}\
         impl::sourcery::event::EventKindforAccountEvent{fnkind(&self)->&'staticstr\
         {matchself{Self::Deposited(_)=>Deposited::KIND,Self::Opened(_)=>Opened::KIND}}}\
         impl::serde::SerializeforAccountEvent{fnserialize<S>(&self,serializer:S)->\
         Result<S::Ok,S::Error>whereS:::serde::Serializer,{matchself{\
         Self::Deposited(inner)=>::serde::Serialize::serialize(inner,serializer),\
         Self::Opened(inner)=>::serde::Serialize::serialize(inner,serializer)}}}\
         impl::sourcery::ProjectionEventforAccountEvent{\
         constEVENT_KINDS:&'static[&'staticstr]=&[Deposited::KIND,Opened::KIND];\
         fnfrom_stored<S:::sourcery::store::EventStore>(\
         stored:&::sourcery::store::StoredEvent<S::Id,S::Position,S::Data,S::Metadata>,store:&S,)\
         ->Result<Self,::sourcery::event::EventDecodeError<S::Error>>{matchstored.kind(){\
         Deposited::KIND=>Ok(Self::Deposited(store.decode_event(stored)\
         .map_err(::sourcery::event::EventDecodeError::Store)?)),\
         Opened::KIND=>Ok(Self::Opened(store.decode_event(stored)\
         .map_err(::sourcery::event::EventDecodeError::Store)?)),\
         _=>Err(::sourcery::event::EventDecodeError::UnknownKind\
         {kind:stored.kind().to_string(),expected:Self::EVENT_KINDS,}),}}}\
         implFrom<Deposited>forAccountEvent{fnfrom(event:Deposited)->Self{Self::Deposited(event)}}\
         implFrom<Opened>forAccountEvent{fnfrom(event:Opened)->Self{Self::Opened(event)}}\
         impl::sourcery::AggregateforAccount{constKIND:&'staticstr=\"account\";\
         typeEvent=AccountEvent;typeError=String;typeId=String;\
         fncreate(event:&Self::Event)->Self{matchevent{\
         AccountEvent::Opened(e)=><Selfas::sourcery::Create<Opened>>::create(e),\
         _=>panic!(\"streamdoesnotstartwithitscreationevent\"),}}\
         fnapply(&mutself,event:&Self::Event){matchevent{\
         AccountEvent::Deposited(e)=>::sourcery::Apply::apply(self,e),\
         AccountEvent::Opened(e)=>::sourcery::Apply::apply(self,e)}}}"
    );
}

#[test]
fn aggregates_without_a_creation_event_start_from_their_default() {
    let text = compact(&generate_aggregate_impl(&account(vec![path(&["Deposited"])])).unwrap());
    assert!(text.contains(
        "fncreate(event:&Self::Event)->Self{\
         letmutaggregate=<Selfas::core::default::Default>::default();\
         ::sourcery::Aggregate::apply(&mutaggregate,event);aggregate}"
    ));
    assert!(text.starts_with("#[derive(Clone)]pubenumAccountEvent"));
}
