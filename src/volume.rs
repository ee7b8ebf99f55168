use vstd::prelude::*;

verus! {

/// One project's figures for one day: how many subscriptions and how many
/// transactions were recorded.
#[derive(Debug)]
pub struct NjVolume {
    pub name: String,
    pub subscription: u32,
    pub transaction: u32,
    pub day: String,
}

/// What an `NjVolume` holds, as values.
pub struct VolumeView {
    pub name: Seq<char>,
    pub subscription: u32,
    pub transaction: u32,
    pub day: Seq<char>,
}

impl View for NjVolume {
    type V = VolumeView;

    open spec fn view(&self) -> VolumeView {
        VolumeView {
            name: self.name@,
            subscription: self.subscription,
            transaction: self.transaction,
            day: self.day@,
        }
    }
}

impl NjVolume {
    pub fn new(name: String, subscription: u32, transaction: u32, day: String) -> (r: Self)
        ensures
            r.name == name,
            r.subscription == subscription,
            r.transaction == transaction,
            r.day == day,
    {
        NjVolume { name, subscription, transaction, day }
    }
}

impl PartialEq for NjVolume {
    fn eq(&self, other: &NjVolume) -> (r: bool)
        ensures
            r == (self@ == other@),
    {
        self.name == other.name && self.subscription == other.subscription && self.transaction
            == other.transaction && self.day == other.day
    }
}

impl vstd::std_specs::cmp::PartialEqSpecImpl for NjVolume {
    open spec fn obeys_eq_spec() -> bool {
        true
    }

    open spec fn eq_spec(&self, other: &NjVolume) -> bool {
        self@ == other@
    }
}

impl Eq for NjVolume {

}

} // verus!
