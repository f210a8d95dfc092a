//! Event records handed to the host for emission.

use vstd::prelude::*;

use crate::types::AccountId;
use crate::types::Id;
use crate::types::IdView;

verus! {

/// A state-change record produced by a successful operation.  The core
/// never emits anything itself; the host consumes these records and turns
/// them into whatever its logging layer expects.
#[derive(Debug)]
pub enum PSP34Event {
    /// An ownership change: `from == None` marks a mint, `to == None` a
    /// burn.
    Transfer { from: Option<AccountId>, to: Option<AccountId>, id: Id },
    /// An approval was granted or withdrawn; `id == None` marks a blanket
    /// approval over all of the owner's tokens.
    Approval { owner: AccountId, operator: AccountId, id: Option<Id>, approved: bool },
    /// An attribute was written for a token.
    AttributeSet { id: Id, key: Vec<u8>, data: Vec<u8> },
}

/// The mathematical value of an event record.
#[verifier::ext_equal]
pub enum EventView {
    Transfer { from: Option<AccountId>, to: Option<AccountId>, id: IdView },
    Approval { owner: AccountId, operator: AccountId, id: Option<IdView>, approved: bool },
    AttributeSet { id: IdView, key: Seq<u8>, data: Seq<u8> },
}

/// The value of an optional identifier.
pub open spec fn opt_id_view(id: Option<Id>) -> Option<IdView> {
    match id {
        Some(t) => Some(t@),
        None => None,
    }
}

impl View for PSP34Event {
    type V = EventView;

    open spec fn view(&self) -> EventView {
        match *self {
            PSP34Event::Transfer { from, to, id } => EventView::Transfer { from, to, id: id@ },
            PSP34Event::Approval { owner, operator, id, approved } => EventView::Approval {
                owner,
                operator,
                id: opt_id_view(id),
                approved,
            },
            PSP34Event::AttributeSet { id, key, data } => EventView::AttributeSet {
                id: id@,
                key: key@,
                data: data@,
            },
        }
    }
}

} // verus!
