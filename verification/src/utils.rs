//! The directory of offices that the watcher scans.

use crate::structs::{
    distinct, entry_ids, entry_records, lemma_lookup_round_trip, Location, LocationMap,
    SchedulerError,
};
use vstd::prelude::*;

verus! {

/// The directory of offices, fixed once it is made.
pub struct Utils {
    location_mapping: LocationMap,
}

impl Utils {
    /// The directory that this value holds.
    pub closed spec fn mapping(&self) -> LocationMap {
        self.location_mapping
    }

    /// The directory of `entries`: each an id and the office that the
    /// directory file holds for it, in the order of the file. Entries among
    /// which an id occurs twice are refused; nothing is loaded in part.
    pub fn new(entries: Vec<(String, Location)>) -> (r: Result<Self, SchedulerError>)
        ensures
            match r {
                Ok(utils) => {
                    &&& distinct(entry_ids(entries@))
                    &&& utils.mapping().wf()
                    &&& utils.mapping().ids() == entry_ids(entries@)
                    &&& utils.mapping().records() == entry_records(entries@)
                    &&& forall|i: int|
                        0 <= i < entries@.len() ==> utils.mapping()@.dom().contains(
                            #[trigger] entries@[i].0@,
                        ) && utils.mapping()@[entries@[i].0@] == entries@[i].1@
                },
                Err(e) => !distinct(entry_ids(entries@)) && e == SchedulerError::ConfigError,
            },
    {
        match LocationMap::from_entries(entries) {
            Ok(location_mapping) => {
                proof {
                    assert forall|i: int| 0 <= i < entries@.len() implies location_mapping@.dom().contains(
                        #[trigger] entries@[i].0@,
                    ) && location_mapping@[entries@[i].0@] == entries@[i].1@ by {
                        lemma_lookup_round_trip(location_mapping, i);
                    }
                }
                Ok(Utils { location_mapping })
            },
            Err(e) => Err(e),
        }
    }

    /// The office with the id `id`.
    pub fn get_location_from_id(&self, id: &str) -> (r: Result<&Location, SchedulerError>)
        ensures
            match r {
                Ok(location) => self.mapping().has(id@) && location@ == self.mapping()@[id@],
                Err(e) => !self.mapping().has(id@) && e == SchedulerError::NotFoundError,
            },
    {
        match self.location_mapping.position(id) {
            Some(index) => {
                proof {
                    use_type_invariant(&self.location_mapping);
                    lemma_lookup_round_trip(self.location_mapping, index as int);
                }
                Ok(self.location_mapping.location_at(index))
            },
            None => Err(SchedulerError::NotFoundError),
        }
    }

    /// The whole directory.
    pub fn get_location_mapping(&self) -> (map: &LocationMap)
        ensures
            *map == self.mapping(),
            map.wf(),
    {
        proof {
            use_type_invariant(&self.location_mapping);
        }
        &self.location_mapping
    }

    /// The ids of the directory, in the order in which a pass visits them.
    pub fn get_location_id_collection(&self) -> (ids: Vec<String>)
        ensures
            ids@.len() == self.mapping().ids().len(),
            forall|i: int| 0 <= i < ids@.len() ==> ids@[i]@ == self.mapping().ids()[i],
    {
        let mut ids: Vec<String> = Vec::new();
        let mut i: usize = 0;
        while i < self.location_mapping.len()
            invariant
                i <= self.location_mapping.ids().len(),
                ids@.len() == i,
                forall|k: int| 0 <= k < i ==> ids@[k]@ == self.location_mapping.ids()[k],
            decreases self.location_mapping.ids().len() - i,
        {
            ids.push(self.location_mapping.id_at(i).clone());
            i += 1;
        }
        ids
    }
}

} // verus!
