use vstd::prelude::*;

use crate::decimals::fixed_decimal::FixedDecimal;
use crate::event_kind::EventKind;
use crate::level::Level;
use crate::side::Side;

verus! {

/// The wire record a book consumes: what happened (`kind`), on which side,
/// at which price and size, stamped with the producer's clock and an
/// optional sequence id (0 means "unsequenced").
#[derive(Debug, Clone, Copy, PartialEq, Eq, Structural)]
pub struct Event {
    pub kind: EventKind,
    pub side: Side,
    pub price: FixedDecimal,
    pub size: FixedDecimal,
    pub timestamp: i64,
    pub sequence_id: u64,
}

impl Event {
    /// A new event without a sequence id.
    pub fn new(kind: EventKind, side: Side, price: FixedDecimal, size: FixedDecimal, timestamp: i64) -> (r: Self)
        ensures
            r.kind == kind,
            r.side == side,
            r.price@ == price@,
            r.size@ == size@,
            r.timestamp == timestamp,
            r.sequence_id == 0u64,
    {
        Self { kind, side, price, size, timestamp, sequence_id: 0 }
    }

    /// The same event carrying the given sequence id.
    pub fn with_sequence_id(self, sequence_id: u64) -> (r: Self)
        ensures
            r == (Event { sequence_id, ..self }),
    {
        Self { sequence_id, ..self }
    }

    /// The price level this event quotes.
    pub fn to_level(self) -> (r: Level)
        ensures
            r.price@ == self.price@,
            r.size@ == self.size@,
    {
        Level { price: self.price, size: self.size }
    }
}

} // verus!
