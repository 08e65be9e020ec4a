//! Which MIDI channels a patch switch addresses.

use vstd::prelude::*;

verus! {

/// Number of channels of one MIDI connection.
pub const CHANNELS: u8 = 16;

/// Mathematical model of a [`Zone`]: a master channel and `members`
/// consecutive member channels starting at `first_member`.
pub struct ZoneView {
    pub master: nat,
    pub first_member: nat,
    pub members: nat,
}

impl ZoneView {
    /// Every channel exists and the master is not one of the members.
    pub open spec fn valid(self) -> bool {
        &&& self.master < CHANNELS
        &&& self.first_member + self.members <= CHANNELS
        &&& !(self.first_member <= self.master < self.first_member + self.members)
    }

    /// The channels of the zone in the order they are served: the master
    /// first, then the members in ascending order.
    pub open spec fn channels(self) -> Seq<nat> {
        seq![self.master] + Seq::new(self.members, |i: int| (self.first_member + i) as nat)
    }

    /// The zone that stands for the whole instrument.
    pub open spec fn full_range() -> ZoneView {
        ZoneView { master: 0, first_member: 0, members: 0 }
    }
}

/// Channel numbers as mathematical integers.
pub open spec fn channel_numbers(list: Seq<u8>) -> Seq<nat> {
    list.map_values(|c: u8| c as nat)
}

/// An MPE zone: the channels that one patch switch addresses. A zone
/// holds no connection state and never changes.
#[derive(Clone, Copy, Debug, PartialEq, Eq)]
pub struct Zone {
    master: u8,
    first_member: u8,
    members: u8,
}

impl View for Zone {
    type V = ZoneView;

    closed spec fn view(&self) -> ZoneView {
        ZoneView {
            master: self.master as nat,
            first_member: self.first_member as nat,
            members: self.members as nat,
        }
    }
}

impl Zone {
    #[verifier::type_invariant]
    spec fn inv(self) -> bool {
        self@.valid()
    }

    /// The full range: the instrument as a whole, addressed once, on its
    /// first channel. Simple patch switches use this zone.
    pub fn full_range() -> (zone: Zone)
        ensures
            zone@ == ZoneView::full_range(),
    {
        Zone { master: 0, first_member: 0, members: 0 }
    }

    /// A zone with the given master channel and the member channels
    /// `first` to `last`, both included. Channels count from zero.
    /// `None` when a channel is above 15, when `first` is above `last`, or
    /// when the master is one of the members.
    pub fn with_members(master: u8, first: u8, last: u8) -> (made: Option<Zone>)
        ensures
            made.is_some() <==> (master < CHANNELS && first <= last < CHANNELS && !(first <= master
                <= last)),
            made matches Some(zone) ==> zone@ == (ZoneView {
                master: master as nat,
                first_member: first as nat,
                members: (last - first + 1) as nat,
            }),
    {
        if master < CHANNELS && first <= last && last < CHANNELS && !(first <= master && master
            <= last) {
            Some(Zone { master, first_member: first, members: last - first + 1 })
        } else {
            None
        }
    }

    /// Whether this is the full range.
    pub fn is_full_range(&self) -> (yes: bool)
        ensures
            yes == (self@ == ZoneView::full_range()),
    {
        self.master == 0 && self.first_member == 0 && self.members == 0
    }

    /// The channels of the zone in the order they are served.
    pub fn channels(&self) -> (list: Vec<u8>)
        ensures
            channel_numbers(list@) == self@.channels(),
            forall|i: int| 0 <= i < list@.len() ==> #[trigger] list@[i] < CHANNELS,
    {
        proof {
            use_type_invariant(self);
        }
        let mut list: Vec<u8> = Vec::new();
        list.push(self.master);
        let mut i: u8 = 0;
        while i < self.members
            invariant
                self@.valid(),
                i <= self.members,
                list@.len() == i + 1,
                forall|k: int| 0 <= k < list@.len() ==> list@[k] as nat == self@.channels()[k],
                forall|k: int| 0 <= k < list@.len() ==> #[trigger] list@[k] < CHANNELS,
            decreases self.members - i,
        {
            list.push(self.first_member + i);
            i += 1;
        }
        list
    }
}

impl Default for Zone {
    fn default() -> (zone: Zone)
        ensures
            zone@ == ZoneView::full_range(),
    {
        Zone::full_range()
    }
}

} // verus!
