use vstd::prelude::*;

use crate::fields::{all_known, field_value, value_of, ParseError};

verus! {

/// A step that the messaging workflow recorded for a conversation.
#[derive(Debug)]
pub struct TrackerStep {
    pub tracker_id: String,
    pub timestamp: String,
    pub id: String,
    pub status: String,
    pub value: String,
    pub attached_files: String,
    pub message_reference: String,
}

/// Which tracker's steps to look up.
#[derive(Debug)]
pub struct TrackerParam {
    pub tracker_id: String,
}

/// The messaging workflow that part requests come from.
#[derive(Debug, Clone, Copy)]
pub struct WhatsappSource {}

/// What can be told of a vehicle from its VIN.
#[derive(Debug)]
pub struct VinInformation {
    pub make: String,
    pub model: String,
    pub year: String,
    pub plant: String,
}

/// The fields that a stored tracker step carries, in the order they are read.
pub open spec fn step_fields() -> Seq<Seq<char>> {
    seq![
        "value"@,
        "status"@,
        "tracker_id"@,
        "timestamp"@,
        "attached_files"@,
        "message_reference"@,
    ]
}

impl TrackerStep {
    pub fn new() -> (r: TrackerStep)
        ensures
            r.tracker_id@.len() == 0 && r.timestamp@.len() == 0 && r.id@.len() == 0 && r.status@.len() == 0
                && r.value@.len() == 0 && r.attached_files@.len() == 0 && r.message_reference@.len() == 0,
    {
        TrackerStep {
            tracker_id: String::new(),
            timestamp: String::new(),
            id: String::new(),
            status: String::new(),
            value: String::new(),
            attached_files: String::new(),
            message_reference: String::new(),
        }
    }

    /// A field-by-field copy of the step.
    pub fn duplicate(&self) -> (r: TrackerStep)
        ensures
            r == *self,
    {
        TrackerStep {
            tracker_id: self.tracker_id.clone(),
            timestamp: self.timestamp.clone(),
            id: self.id.clone(),
            status: self.status.clone(),
            value: self.value.clone(),
            attached_files: self.attached_files.clone(),
            message_reference: self.message_reference.clone(),
        }
    }

    /// Fills the step from the flat list of names and values that the step
    /// store returns, and returns a copy of it. Each of the six stored fields
    /// must be present and no other name; the `id` is left as it was. On an
    /// error the step is left unchanged.
    pub fn parse_from_redis(&mut self, register: &Vec<String>) -> (r: Result<TrackerStep, ParseError>)
        ensures
            r is Ok <==> (forall|k: int| 0 <= k < 6 ==> #[trigger] value_of(register@, step_fields()[k]) is Some)
                && all_known(register@, step_fields()),
            r is Ok ==> {
                &&& Some(final(self).value) == value_of(register@, "value"@)
                &&& Some(final(self).status) == value_of(register@, "status"@)
                &&& Some(final(self).tracker_id) == value_of(register@, "tracker_id"@)
                &&& Some(final(self).timestamp) == value_of(register@, "timestamp"@)
                &&& Some(final(self).attached_files) == value_of(register@, "attached_files"@)
                &&& Some(final(self).message_reference) == value_of(register@, "message_reference"@)
                &&& final(self).id == old(self).id
                &&& r == Ok::<TrackerStep, ParseError>(*final(self))
            },
            r is Err ==> *final(self) == *old(self),
            r matches Err(ParseError::MissingField(n)) ==> step_fields().contains(n@) && value_of(
                register@,
                n@,
            ) is None,
            r matches Err(ParseError::UnexpectedField(n)) ==> !step_fields().contains(n@),
    {
        let names: Vec<String> = vec![
            "value".to_owned(),
            "status".to_owned(),
            "tracker_id".to_owned(),
            "timestamp".to_owned(),
            "attached_files".to_owned(),
            "message_reference".to_owned(),
        ];
        proof {
            assert(names@.map_values(|s: String| s@) =~= step_fields());
        }
        let mut values: Vec<String> = Vec::new();
        let mut i: usize = 0;
        while i < names.len()
            invariant
                names@.map_values(|s: String| s@) == step_fields(),
                i <= names@.len(),
                values@.len() == i,
                forall|k: int| 0 <= k < i ==> Some(#[trigger] values@[k]) == value_of(register@, step_fields()[k]),
            decreases names@.len() - i,
        {
            assert(names@[i as int]@ == step_fields()[i as int]);
            match field_value(register, names[i].as_str()) {
                Some(v) => values.push(v),
                None => {
                    proof {
                        assert(step_fields()[i as int] == names@[i as int]@);
                        assert(step_fields().contains(names@[i as int]@));
                    }
                    return Err(ParseError::MissingField(names[i].clone()));
                },
            }
            i += 1;
        }
        match crate::fields::unknown_name(register, &names) {
            Some(n) => Err(ParseError::UnexpectedField(n)),
            None => {
                self.value = values[0].clone();
                self.status = values[1].clone();
                self.tracker_id = values[2].clone();
                self.timestamp = values[3].clone();
                self.attached_files = values[4].clone();
                self.message_reference = values[5].clone();
                Ok(self.duplicate())
            },
        }
    }
}

} // verus!
