//! The decisions behind the destination commands.
use vstd::prelude::*;

use crate::app::dto::{destination_dto_of, DestinationDto};
use crate::app::error::CommandError;
use crate::app::ids::{parse_uuid, uuid_parsed};
use crate::schema::destinations::{chain_to, path, Destination};

verus! {

/// The display path of the destination whose id is the UUID text `id`, in a
/// snapshot of the destination rows, as the user interface sees it: root
/// first, ending at the destination itself, empty when it is missing or
/// tombstoned. Text that is no UUID is refused.
pub fn destination_path(rows: &Vec<Destination>, id: &str) -> (r: Result<
    Vec<DestinationDto>,
    CommandError,
>)
    ensures
        uuid_parsed(id@) is None ==> (r matches Err(CommandError::InvalidId(t)) && t@ == id@),
        uuid_parsed(id@) matches Some(x) ==> (r matches Ok(v) && v.len() == chain_to(
            rows@,
            x,
            rows@.len(),
        ).len() && forall|i: int|
            0 <= i < v.len() ==> destination_dto_of(
                #[trigger] v[i],
                chain_to(rows@, x, rows@.len())[i],
            )),
{
    let x = match parse_uuid(id) {
        Ok(x) => x,
        Err(e) => {
            return Err(e);
        },
    };
    let chain = path(rows, x);
    let mut out: Vec<DestinationDto> = Vec::new();
    let mut i: usize = 0;
    while i < chain.len()
        invariant
            i <= chain@.len(),
            out@.len() == i,
            forall|k: int| 0 <= k < i ==> destination_dto_of(#[trigger] out@[k], chain@[k]),
        decreases chain@.len() - i,
    {
        out.push(DestinationDto::from_destination(chain[i].duplicate()));
        i += 1;
    }
    Ok(out)
}

} // verus!
