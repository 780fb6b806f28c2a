//! The make-up of a set of records: one frequency table per attribute.

use crate::histogram::{inserted, total_of, well_formed, Bins, Histogram};
use crate::record::Badger;
use vstd::prelude::*;

verus! {

/// The model of a profile: the bins of each attribute and the number of records.
pub struct ProfileView {
    pub genders: Bins,
    pub disciplines: Bins,
    pub seniorities: Bins,
    pub clients: Bins,
    pub teams: Bins,
    pub count: nat,
}

impl ProfileView {
    /// The profile of no records.
    pub open spec fn empty() -> ProfileView {
        ProfileView {
            genders: Seq::empty(),
            disciplines: Seq::empty(),
            seniorities: Seq::empty(),
            clients: Seq::empty(),
            teams: Seq::empty(),
            count: 0,
        }
    }

    /// The profile after one more record.
    pub open spec fn with(self, badger: Badger) -> ProfileView {
        ProfileView {
            genders: inserted(self.genders, badger.gender@),
            disciplines: inserted(self.disciplines, badger.discipline@),
            seniorities: inserted(self.seniorities, badger.seniority@),
            clients: inserted(self.clients, badger.client@),
            teams: inserted(self.teams, badger.team@),
            count: self.count + 1,
        }
    }

    /// Every table is well formed and has counted every record.
    pub open spec fn consistent(self) -> bool {
        &&& well_formed(self.genders) && total_of(self.genders) == self.count
        &&& well_formed(self.disciplines) && total_of(self.disciplines) == self.count
        &&& well_formed(self.seniorities) && total_of(self.seniorities) == self.count
        &&& well_formed(self.clients) && total_of(self.clients) == self.count
        &&& well_formed(self.teams) && total_of(self.teams) == self.count
    }
}

/// The attribute tables of a group of records, and the size of the group.
pub struct Profile {
    pub genders: Histogram,
    pub disciplines: Histogram,
    pub seniorities: Histogram,
    pub clients: Histogram,
    pub teams: Histogram,
    pub count: usize,
}

impl View for Profile {
    type V = ProfileView;

    open spec fn view(&self) -> ProfileView {
        ProfileView {
            genders: self.genders@,
            disciplines: self.disciplines@,
            seniorities: self.seniorities@,
            clients: self.clients@,
            teams: self.teams@,
            count: self.count as nat,
        }
    }
}

impl Profile {
    /// Every table is valid and has counted `count` records.
    pub open spec fn wf(&self) -> bool {
        &&& self.genders.wf()
        &&& self.disciplines.wf()
        &&& self.seniorities.wf()
        &&& self.clients.wf()
        &&& self.teams.wf()
        &&& self@.consistent()
    }

    /// The profile of no records.
    pub fn new() -> (p: Profile)
        ensures
            p.wf(),
            p@ == ProfileView::empty(),
    {
        Profile {
            genders: Histogram::new(),
            disciplines: Histogram::new(),
            seniorities: Histogram::new(),
            clients: Histogram::new(),
            teams: Histogram::new(),
            count: 0,
        }
    }

    /// Counts one more record in every table.
    pub fn insert(&mut self, badger: &Badger)
        requires
            old(self).wf(),
            old(self)@.count < usize::MAX,
        ensures
            final(self).wf(),
            final(self)@ == old(self)@.with(*badger),
    {
        self.count = self.count + 1;
        self.genders.insert(&badger.gender);
        self.disciplines.insert(&badger.discipline);
        self.seniorities.insert(&badger.seniority);
        self.clients.insert(&badger.client);
        self.teams.insert(&badger.team);
    }
}

} // verus!
