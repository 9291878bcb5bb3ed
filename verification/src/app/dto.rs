//! Boundary-facing mirrors of the storage records. Ids cross the boundary
//! as hyphenated UUID text.
use vstd::prelude::*;

use crate::app::ids::{uuid_string, uuid_text};
use crate::schema::destinations::{Destination, DestinationKind};
use crate::schema::records::{Edit, Item};

verus! {

/// A destination's kind as the user interface sees it.
#[derive(Debug, Clone, Copy, PartialEq, Eq, Structural)]
pub enum DestinationKindDto {
    List,
    Note,
}

impl From<DestinationKind> for DestinationKindDto {
    fn from(kind: DestinationKind) -> (r: DestinationKindDto) {
        match kind {
            DestinationKind::List => DestinationKindDto::List,
            DestinationKind::Note => DestinationKindDto::Note,
        }
    }
}

impl vstd::std_specs::convert::FromSpecImpl<DestinationKind> for DestinationKindDto {
    open spec fn obeys_from_spec() -> bool {
        true
    }

    open spec fn from_spec(kind: DestinationKind) -> DestinationKindDto {
        match kind {
            DestinationKind::List => DestinationKindDto::List,
            DestinationKind::Note => DestinationKindDto::Note,
        }
    }
}

impl From<DestinationKindDto> for DestinationKind {
    fn from(kind: DestinationKindDto) -> (r: DestinationKind) {
        match kind {
            DestinationKindDto::List => DestinationKind::List,
            DestinationKindDto::Note => DestinationKind::Note,
        }
    }
}

impl vstd::std_specs::convert::FromSpecImpl<DestinationKindDto> for DestinationKind {
    open spec fn obeys_from_spec() -> bool {
        true
    }

    open spec fn from_spec(kind: DestinationKindDto) -> DestinationKind {
        kind_of_dto(kind)
    }
}

/// The [`DestinationKind`] a user-interface kind stands for.
pub open spec fn kind_of_dto(kind: DestinationKindDto) -> DestinationKind {
    match kind {
        DestinationKindDto::List => DestinationKind::List,
        DestinationKindDto::Note => DestinationKind::Note,
    }
}

/// The user-interface form of a [`DestinationKind`].
pub open spec fn kind_dto(kind: DestinationKind) -> DestinationKindDto {
    match kind {
        DestinationKind::List => DestinationKindDto::List,
        DestinationKind::Note => DestinationKindDto::Note,
    }
}

/// A kind survives the trip to the user interface and back, both ways.
pub proof fn lemma_kind_round_trip(kind: DestinationKind, dto: DestinationKindDto)
    ensures
        kind_of_dto(kind_dto(kind)) == kind,
        kind_dto(kind_of_dto(dto)) == dto,
{
}

/// A destination as the user interface sees it.
#[derive(Debug, Clone, PartialEq, Eq)]
pub struct DestinationDto {
    pub id: String,
    pub parent_id: Option<String>,
    pub name: String,
    pub trigger: String,
    pub kind: DestinationKindDto,
    pub is_system: bool,
    pub is_sensitive: bool,
    pub sort_order: i64,
    pub created_at: i64,
    pub deleted_at: Option<i64>,
}

/// Whether `o` holds the UUID text of `x` exactly when `x` is present.
pub open spec fn id_text_opt(o: Option<String>, x: Option<u128>) -> bool {
    match (o, x) {
        (Some(s), Some(v)) => s@ == uuid_text(v),
        (None, None) => true,
        _ => false,
    }
}

/// The UUID text of an optional id.
fn uuid_string_opt(x: Option<u128>) -> (r: Option<String>)
    ensures
        id_text_opt(r, x),
{
    match x {
        Some(v) => Some(uuid_string(v)),
        None => None,
    }
}

/// Whether `r` is the boundary form of `d`, ids as UUID text.
pub open spec fn destination_dto_of(r: DestinationDto, d: Destination) -> bool {
    &&& r.id@ == uuid_text(d.id)
    &&& id_text_opt(r.parent_id, d.parent_id)
    &&& r.name == d.name
    &&& r.trigger == d.trigger
    &&& r.kind == kind_dto(d.kind)
    &&& r.is_system == d.is_system
    &&& r.is_sensitive == d.is_sensitive
    &&& r.sort_order == d.sort_order
    &&& r.created_at == d.created_at
    &&& r.deleted_at == d.deleted_at
}

impl DestinationDto {
    /// The boundary form of `d`, ids as UUID text.
    pub fn from_destination(d: Destination) -> (r: DestinationDto)
        ensures
            destination_dto_of(r, d),
    {
        DestinationDto {
            id: uuid_string(d.id),
            parent_id: uuid_string_opt(d.parent_id),
            name: d.name,
            trigger: d.trigger,
            kind: DestinationKindDto::from(d.kind),
            is_system: d.is_system,
            is_sensitive: d.is_sensitive,
            sort_order: d.sort_order,
            created_at: d.created_at,
            deleted_at: d.deleted_at,
        }
    }
}

/// An item as the user interface sees it.
#[derive(Debug, Clone, PartialEq, Eq)]
pub struct ItemDto {
    pub id: String,
    pub destination_id: String,
    pub original_text: String,
    pub current_text: String,
    pub checked: Option<bool>,
    pub created_at: i64,
    pub deleted_at: Option<i64>,
}

impl ItemDto {
    /// The boundary form of `i`, ids as UUID text.
    pub fn from_item(i: Item) -> (r: ItemDto)
        ensures
            r.id@ == uuid_text(i.id),
            r.destination_id@ == uuid_text(i.destination_id),
            r.original_text == i.original_text,
            r.current_text == i.current_text,
            r.checked == i.checked,
            r.created_at == i.created_at,
            r.deleted_at == i.deleted_at,
    {
        ItemDto {
            id: uuid_string(i.id),
            destination_id: uuid_string(i.destination_id),
            original_text: i.original_text,
            current_text: i.current_text,
            checked: i.checked,
            created_at: i.created_at,
            deleted_at: i.deleted_at,
        }
    }
}

/// An edit as the user interface sees it.
#[derive(Debug, Clone, PartialEq, Eq)]
pub struct EditDto {
    pub id: String,
    pub item_id: String,
    pub text: String,
    pub edited_at: i64,
}

impl EditDto {
    /// The boundary form of `e`, ids as UUID text.
    pub fn from_edit(e: Edit) -> (r: EditDto)
        ensures
            r.id@ == uuid_text(e.id),
            r.item_id@ == uuid_text(e.item_id),
            r.text == e.text,
            r.edited_at == e.edited_at,
    {
        EditDto { id: uuid_string(e.id), item_id: uuid_string(e.item_id), text: e.text, edited_at: e.edited_at }
    }
}

} // verus!
