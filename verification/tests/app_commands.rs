use blurt::app::capture::{capture_target, normalize_voice_transcript_impl};
use blurt::app::destinations::destination_path;
use blurt::app::dto::{DestinationDto, DestinationKindDto, EditDto, ItemDto};
use blurt::app::error::CommandError;
use blurt::app::ids::parse_uuid;
use blurt::app::search::{
    ask_options, classify_input_impl, search_options, window_days, window_from_days,
    InputKindDto,
};
use blurt::rag::search::RetrievalWindow;
use blurt::router::resolve::{route, Routing, RoutingDecision};
use blurt::schema::destinations::{Destination, DestinationKind, UNSORTED_ID};
use blurt::schema::error::SchemaError;
use blurt::schema::records::{Edit, Item};

#[test]
fn destination_kind_maps_list_and_note() {
    assert_eq!(DestinationKindDto::from(DestinationKind::List), DestinationKindDto::List);
    assert_eq!(DestinationKindDto::from(DestinationKind::Note), DestinationKindDto::Note);
}

#[test]
fn destination_kind_dto_maps_back_to_domain_kind() {
    assert_eq!(DestinationKind::from(DestinationKindDto::List), DestinationKind::List);
    assert_eq!(DestinationKind::from(DestinationKindDto::Note), DestinationKind::Note);
}

#[test]
fn destination_converts_with_stringified_ids() {
    let id: u128 = 0x0123_4567_89ab_cdef_0123_4567_89ab_cdef;
    let parent_id: u128 = 42;
    let d = Destination {
        id,
        parent_id: Some(parent_id),
        name: "Shopping".to_string(),
        trigger: "shop".to_string(),
        kind: DestinationKind::List,
        is_system: false,
        is_sensitive: false,
        sort_order: 0,
        created_at: 123,
        deleted_at: None,
    };
    let dto = DestinationDto::from_destination(d);
    assert_eq!(dto.id, "01234567-89ab-cdef-0123-456789abcdef");
    assert_eq!(dto.parent_id, Some("00000000-0000-0000-0000-00000000002a".to_string()));
    assert_eq!(dto.name, "Shopping");
    assert_eq!(dto.kind, DestinationKindDto::List);
}

#[test]
fn item_converts_with_stringified_ids() {
    let i = Item {
        id: 1,
        destination_id: 2,
        original_text: "buy milk".to_string(),
        current_text: "buy milk".to_string(),
        checked: Some(false),
        created_at: 123,
        deleted_at: None,
    };
    let dto = ItemDto::from_item(i);
    assert_eq!(dto.id, uuid_text(1));
    assert_eq!(dto.destination_id, uuid_text(2));
    assert_eq!(dto.checked, Some(false));
}

#[test]
fn edit_converts_with_stringified_ids() {
    let e = Edit { id: 3, item_id: 4, text: "oat milk".to_string(), edited_at: 456 };
    let dto = EditDto::from_edit(e);
    assert_eq!(dto.id, uuid_text(3));
    assert_eq!(dto.item_id, uuid_text(4));
    assert_eq!(dto.text, "oat milk");
}

#[test]
fn parses_a_valid_uuid() {
    let id: u128 = 0xdead_beef_0000_4000_8000_0000_0000_0001;
    assert_eq!(parse_uuid(&uuid_text(id)).unwrap(), id);
}

#[test]
fn rejects_a_non_uuid_text() {
    let err = parse_uuid("not-a-uuid").err().expect("refused");
    assert_eq!(err, CommandError::InvalidId("not-a-uuid".to_string()));
}

#[test]
fn schema_error_converts_to_a_schema_variant_carrying_its_message() {
    let err = CommandError::from_schema(SchemaError::DatabaseLocked);
    assert_eq!(
        err,
        CommandError::Schema("database could not be decrypted with the supplied key".to_string())
    );
}

#[test]
fn an_everyday_at_is_flagged_but_reversible_rather_than_silently_routed() {
    let normalized = normalize_voice_transcript_impl("meet Dana at 9pm");

    assert!(normalized.text.contains('@'));
    assert_eq!(normalized.replacements.len(), 1);
    assert_eq!(normalized.replacements[0].original.trim(), "at");
}

#[test]
fn a_word_merely_containing_at_is_left_alone() {
    let normalized = normalize_voice_transcript_impl("attempt to chat later");

    assert!(!normalized.text.contains('@'), "got {}", normalized.text);
    assert!(normalized.replacements.is_empty());
}

#[test]
fn a_question_and_a_statement_are_classified_for_different_commands() {
    assert_eq!(classify_input_impl("did I buy milk"), InputKindDto::Question);
    assert_eq!(classify_input_impl("buy milk"), InputKindDto::Statement);
}

fn dest(id: u128, name: &str, trigger: &str) -> Destination {
    Destination {
        id,
        parent_id: None,
        name: name.to_string(),
        trigger: trigger.to_string(),
        kind: DestinationKind::List,
        is_system: false,
        is_sensitive: false,
        sort_order: 0,
        created_at: 0,
        deleted_at: None,
    }
}

#[test]
fn every_routed_capture_with_text_lands_somewhere() {
    let rows = vec![dest(7, "Weekly", "weekly")];
    assert_eq!(capture_target(&route(&rows, "buy tomatoes @weekly")), Ok(7));
    assert_eq!(capture_target(&route(&rows, "the sky was purple today")), Ok(UNSORTED_ID));
    assert_eq!(capture_target(&route(&rows, "buy milk @groceries")), Ok(UNSORTED_ID));
}

#[test]
fn a_chain_with_no_body_is_refused_rather_than_filed_as_an_empty_item() {
    let rows = vec![dest(7, "Weekly", "weekly")];
    assert_eq!(capture_target(&route(&rows, "@weekly")), Err(CommandError::EmptyCapture));
    let blank = Routing { text: "   ".to_string(), decision: RoutingDecision::Unrouted };
    assert_eq!(capture_target(&blank), Err(CommandError::EmptyCapture));
}

#[test]
fn window_day_counts_cross_the_boundary_and_back() {
    assert_eq!(window_from_days(None), RetrievalWindow::Unbounded);
    assert_eq!(window_from_days(Some(7)), RetrievalWindow::Days(7));
    assert_eq!(window_days(RetrievalWindow::Days(90)), Some(90));
    assert_eq!(window_days(RetrievalWindow::Unbounded), None);
    assert_eq!(search_options(None, Some(3), 20, 40).offset, 40);
    assert_eq!(ask_options(None, None).window, RetrievalWindow::Days(30));
    assert_eq!(ask_options(Some(5), Some(90)).window, RetrievalWindow::Days(90));
}

#[test]
fn get_destination_path_resolves_a_multi_level_chain() {
    let top = Destination {
        id: 0x11,
        parent_id: None,
        name: "Shopping".to_string(),
        trigger: "shop".to_string(),
        kind: DestinationKind::List,
        is_system: false,
        is_sensitive: false,
        sort_order: 0,
        created_at: 0,
        deleted_at: None,
    };
    let rows = vec![top];

    let path = destination_path(&rows, &uuid_text(0x11)).unwrap();
    assert_eq!(path.len(), 1);
    assert_eq!(path[0].name, "Shopping");
}

#[test]
fn get_destination_path_rejects_a_malformed_id() {
    let rows: Vec<Destination> = Vec::new();
    let err = destination_path(&rows, "not-a-uuid").unwrap_err();
    assert_eq!(err, CommandError::InvalidId("not-a-uuid".to_string()));
}

#[test]
fn a_wrong_secret_stays_its_own_command_error() {
    assert_eq!(CommandError::from_schema(SchemaError::WrongSecret), CommandError::WrongSecret);
    assert_eq!(
        CommandError::from_schema(SchemaError::NoSuchSlot("recovery")),
        CommandError::Schema("no recovery keyslot present".to_string())
    );
}

fn uuid_text(x: u128) -> String {
    uuid::Uuid::from_u128(x).to_string()
}
