//! The values that the other modules share: the failure kinds and the
//! record of one office.

use crate::text::text_eq;
use vstd::prelude::*;

verus! {

/// Why the watcher gave up.
#[derive(Debug, Clone, Copy, PartialEq, Eq, Structural)]
pub enum SchedulerError {
    /// The configuration is unusable: a directory with a repeated id, or an
    /// id or base address from which no well-formed endpoint can be built.
    ConfigError,
    /// No office has the id that was asked for.
    NotFoundError,
    /// The availability of an office could not be learned: the request
    /// failed, the portal answered outside the 2xx range, the body was not a
    /// JSON object, or its `next` was no string.
    TransportError,
    /// An alert could not be handed to the SMS provider or was not delivered.
    NotificationError,
}

impl SchedulerError {
    /// A line of text for this failure.
    pub fn describe(&self) -> (text: &'static str)
        ensures
            text@ == match *self {
                SchedulerError::ConfigError => "configuration error"@,
                SchedulerError::NotFoundError => "unknown location"@,
                SchedulerError::TransportError => "availability request error"@,
                SchedulerError::NotificationError => "sms error"@,
            },
    {
        match self {
            SchedulerError::ConfigError => "configuration error",
            SchedulerError::NotFoundError => "unknown location",
            SchedulerError::TransportError => "availability request error",
            SchedulerError::NotificationError => "sms error",
        }
    }
}

/// One office.
#[derive(Debug, PartialEq)]
pub struct Location {
    pub location_id: String,
    pub location_title: String,
    pub location_street: String,
    pub location_town: String,
    pub location_zip: String,
}

/// What a `Location` holds, as mathematical text.
pub struct LocationView {
    pub id: Seq<char>,
    pub title: Seq<char>,
    pub street: Seq<char>,
    pub town: Seq<char>,
    pub zip: Seq<char>,
}

impl View for Location {
    type V = LocationView;

    open spec fn view(&self) -> LocationView {
        LocationView {
            id: self.location_id@,
            title: self.location_title@,
            street: self.location_street@,
            town: self.location_town@,
            zip: self.location_zip@,
        }
    }
}

impl Clone for Location {
    fn clone(&self) -> (copy: Self)
        ensures
            copy@ == self@,
    {
        Location {
            location_id: self.location_id.clone(),
            location_title: self.location_title.clone(),
            location_street: self.location_street.clone(),
            location_town: self.location_town.clone(),
            location_zip: self.location_zip.clone(),
        }
    }
}

impl Default for Location {
    fn default() -> (empty: Self)
        ensures
            empty@ == (LocationView {
                id: Seq::<char>::empty(),
                title: Seq::<char>::empty(),
                street: Seq::<char>::empty(),
                town: Seq::<char>::empty(),
                zip: Seq::<char>::empty(),
            }),
    {
        Location {
            location_id: String::new(),
            location_title: String::new(),
            location_street: String::new(),
            location_town: String::new(),
            location_zip: String::new(),
        }
    }
}

/// The offices by id, in the order in which they were entered. No id occurs
/// twice.
#[derive(Debug, PartialEq)]
pub struct LocationMap {
    entries: Vec<(String, Location)>,
}

impl LocationMap {
    /// The ids, in order.
    pub closed spec fn ids(&self) -> Seq<Seq<char>> {
        entry_ids(self.entries@)
    }

    /// The offices, each at the position of its id.
    pub closed spec fn records(&self) -> Seq<LocationView> {
        entry_records(self.entries@)
    }

    /// No id occurs twice.
    #[verifier::type_invariant]
    pub closed spec fn wf(&self) -> bool {
        distinct(self.ids())
    }

    /// Whether an office has the id `id`.
    pub open spec fn has(&self, id: Seq<char>) -> bool {
        self.ids().contains(id)
    }

    /// The directory of `entries`, each an id and its office, in that order.
    /// Entries among which an id occurs twice are refused.
    pub fn from_entries(entries: Vec<(String, Location)>) -> (r: Result<Self, SchedulerError>)
        ensures
            match r {
                Ok(map) => {
                    &&& distinct(entry_ids(entries@))
                    &&& map.wf()
                    &&& map.ids() == entry_ids(entries@)
                    &&& map.records() == entry_records(entries@)
                },
                Err(e) => !distinct(entry_ids(entries@)) && e == SchedulerError::ConfigError,
            },
    {
        let mut j: usize = 0;
        while j < entries.len()
            invariant
                j <= entries@.len(),
                forall|a: int, b: int|
                    0 <= a < b < j ==> entry_ids(entries@)[a] != entry_ids(entries@)[b],
            decreases entries@.len() - j,
        {
            let mut i: usize = 0;
            while i < j
                invariant
                    i <= j < entries@.len(),
                    forall|a: int, b: int|
                        0 <= a < b < j ==> entry_ids(entries@)[a] != entry_ids(entries@)[b],
                    forall|a: int|
                        0 <= a < i ==> entry_ids(entries@)[a] != entry_ids(entries@)[j as int],
                decreases j - i,
            {
                if text_eq(entries[i].0.as_str(), entries[j].0.as_str()) {
                    assert(entry_ids(entries@)[i as int] == entry_ids(entries@)[j as int]);
                    return Err(SchedulerError::ConfigError);
                }
                i += 1;
            }
            j += 1;
        }
        assert(distinct(entry_ids(entries@)));
        Ok(LocationMap { entries })
    }

    /// The number of offices.
    pub fn len(&self) -> (n: usize)
        ensures
            n == self.ids().len(),
            n == self.records().len(),
    {
        self.entries.len()
    }

    /// The id at position `index`.
    pub fn id_at(&self, index: usize) -> (id: &String)
        requires
            index < self.ids().len(),
        ensures
            id@ == self.ids()[index as int],
    {
        &self.entries[index].0
    }

    /// The office at position `index`.
    pub fn location_at(&self, index: usize) -> (location: &Location)
        requires
            index < self.records().len(),
        ensures
            location@ == self.records()[index as int],
    {
        &self.entries[index].1
    }

    /// The position of `id`, if an office has it.
    pub fn position(&self, id: &str) -> (found: Option<usize>)
        ensures
            match found {
                Some(index) => {
                    &&& index < self.ids().len()
                    &&& self.ids()[index as int] == id@
                    &&& forall|k: int| 0 <= k < index ==> self.ids()[k] != id@
                },
                None => !self.has(id@),
            },
    {
        let mut i: usize = 0;
        while i < self.entries.len()
            invariant
                i <= self.entries@.len(),
                forall|k: int| 0 <= k < i ==> self.ids()[k] != id@,
            decreases self.entries@.len() - i,
        {
            if text_eq(self.entries[i].0.as_str(), id) {
                return Some(i);
            }
            i += 1;
        }
        None
    }
}

/// The ids of a list of entries, in order.
pub open spec fn entry_ids(entries: Seq<(String, Location)>) -> Seq<Seq<char>> {
    Seq::new(entries.len(), |i: int| entries[i].0@)
}

/// The offices of a list of entries, in order.
pub open spec fn entry_records(entries: Seq<(String, Location)>) -> Seq<LocationView> {
    Seq::new(entries.len(), |i: int| entries[i].1@)
}

impl View for LocationMap {
    type V = Map<Seq<char>, LocationView>;

    /// The directory as a mapping from id to office.
    open spec fn view(&self) -> Map<Seq<char>, LocationView> {
        Map::new(|id: Seq<char>| self.has(id), |id: Seq<char>| self.records()[self.ids().index_of(id)])
    }
}

/// Looking up the id at a position gives the office at that position: what
/// was entered under an id is what the directory holds for it.
pub proof fn lemma_lookup_round_trip(map: LocationMap, index: int)
    requires
        map.wf(),
        0 <= index < map.ids().len(),
    ensures
        map.ids().len() == map.records().len(),
        map@.dom().contains(map.ids()[index]),
        map@[map.ids()[index]] == map.records()[index],
{
    let id = map.ids()[index];
    assert(map.ids().contains(id));
    let found = map.ids().index_of(id);
    assert(0 <= found < map.ids().len() && map.ids()[found] == id);
    assert(found == index);
}

/// Whether no text occurs twice in `ids`.
pub open spec fn distinct(ids: Seq<Seq<char>>) -> bool {
    forall|i: int, j: int| 0 <= i < j < ids.len() ==> ids[i] != ids[j]
}

} // verus!
