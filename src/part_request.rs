use vstd::prelude::*;

use crate::vin::{decimal, possible_years, years_for};

verus! {

/// A (field, value) pair as the request store keeps it.
pub open spec fn field(name: Seq<char>, value: Seq<char>) -> (Seq<char>, Seq<char>) {
    (name, value)
}

/// The views of a list of (field, value) pairs.
pub open spec fn pairs_view(v: Seq<(String, String)>) -> Seq<(Seq<char>, Seq<char>)> {
    v.map_values(|p: (String, String)| (p.0@, p.1@))
}

fn pair(name: &str, value: &String) -> (r: (String, String))
    ensures
        r.0@ == name@,
        r.1@ == value@,
{
    (name.to_owned(), value.clone())
}

/// The vehicle a part is requested for.
#[derive(Debug)]
pub struct VehicleData {
    pub make: Option<String>,
    pub model: Option<String>,
    pub vin: Option<String>,
    /// The two model years that the VIN's year digit may stand for, as `"first,second"`.
    pub year: Option<String>,
}

impl VehicleData {
    /// All four fields are known.
    pub open spec fn is_complete(&self) -> bool {
        self.make is Some && self.model is Some && self.vin is Some && self.year is Some
    }

    /// The fields to store, in the order make, model, year, vin.
    pub fn get_redis_fields(&self) -> (r: Vec<(String, String)>)
        requires
            self.is_complete(),
        ensures
            pairs_view(r@) == seq![
                field("make"@, self.make->0@),
                field("model"@, self.model->0@),
                field("year"@, self.year->0@),
                field("vin"@, self.vin->0@),
            ],
    {
        let mut v: Vec<(String, String)> = Vec::new();
        v.push(pair("make", self.make.as_ref().unwrap()));
        v.push(pair("model", self.model.as_ref().unwrap()));
        v.push(pair("year", self.year.as_ref().unwrap()));
        v.push(pair("vin", self.vin.as_ref().unwrap()));
        proof {
            assert(pairs_view(v@) =~= seq![
                field("make"@, self.make->0@),
                field("model"@, self.model->0@),
                field("year"@, self.year->0@),
                field("vin"@, self.vin->0@),
            ]);
        }
        v
    }
}

/// Collects the vehicle fields one by one, as the messaging workflow yields them.
#[derive(Debug)]
pub struct VehicleDataBuilder {
    pub make: Option<String>,
    pub model: Option<String>,
    pub vin: Option<String>,
    pub year: Option<String>,
}

impl VehicleDataBuilder {
    pub fn new() -> (r: VehicleDataBuilder)
        ensures
            r.make is None && r.model is None && r.vin is None && r.year is None,
    {
        VehicleDataBuilder { make: None, model: None, vin: None, year: None }
    }

    pub fn build(self) -> (r: VehicleData)
        ensures
            r.make == self.make,
            r.model == self.model,
            r.vin == self.vin,
            r.year == self.year,
    {
        VehicleData { make: self.make, model: self.model, vin: self.vin, year: self.year }
    }

    /// Records the VIN found for the request, if any.
    pub fn vin(&mut self, found: Option<String>)
        ensures
            *final(self) == (VehicleDataBuilder { vin: found, ..*old(self) }),
    {
        self.vin = found;
    }

    /// Records the make found for the request, if any.
    pub fn make(&mut self, found: Option<String>)
        ensures
            *final(self) == (VehicleDataBuilder { make: found, ..*old(self) }),
    {
        self.make = found;
    }

    /// Records the two model years that the VIN's year character stands for, as
    /// `"first,second"`, or `None` where the VIN gives no year.
    pub fn year(&mut self)
        requires
            old(self).vin is Some,
        ensures
            final(self).make == old(self).make,
            final(self).model == old(self).model,
            final(self).vin == old(self).vin,
            years_for(old(self).vin->0@) is None ==> final(self).year is None,
            years_for(old(self).vin->0@) matches Some((a, b)) ==> (final(self).year matches Some(t) && t@
                == decimal(a as nat) + seq![','] + decimal(b as nat)),
    {
        let years = possible_years(self.vin.as_ref().unwrap().as_str());
        self.year = years;
    }

    /// Records the model found for the request, if any.
    pub fn model(&mut self, found: Option<String>)
        ensures
            *final(self) == (VehicleDataBuilder { model: found, ..*old(self) }),
    {
        self.model = found;
    }
}

/// The description and attachments of a request.
#[derive(Debug)]
pub struct RequestDetails {
    pub description: Option<String>,
    pub attached_files: Option<String>,
}

impl RequestDetails {
    pub fn new() -> (r: RequestDetails)
        ensures
            r.description is None && r.attached_files is None,
    {
        RequestDetails { description: None, attached_files: None }
    }

    /// Both fields are known.
    pub open spec fn is_complete(&self) -> bool {
        self.description is Some && self.attached_files is Some
    }

    /// The fields to store, in the order description, attached files.
    pub fn get_redis_fields(&self) -> (r: Vec<(String, String)>)
        requires
            self.is_complete(),
        ensures
            pairs_view(r@) == seq![
                field("description"@, self.description->0@),
                field("attached_files"@, self.attached_files->0@),
            ],
    {
        let mut v: Vec<(String, String)> = Vec::new();
        v.push(pair("description", self.description.as_ref().unwrap()));
        v.push(pair("attached_files", self.attached_files.as_ref().unwrap()));
        proof {
            assert(pairs_view(v@) =~= seq![
                field("description"@, self.description->0@),
                field("attached_files"@, self.attached_files->0@),
            ]);
        }
        v
    }
}

/// Collects the request details one by one.
#[derive(Debug)]
pub struct RequestDetailsBuilder {
    pub description: Option<String>,
    pub attached_files: Option<String>,
}

impl RequestDetailsBuilder {
    pub fn new() -> (r: RequestDetailsBuilder)
        ensures
            r.description is None && r.attached_files is None,
    {
        RequestDetailsBuilder { description: None, attached_files: None }
    }

    /// Records the description found for the request, if any.
    pub fn description(&mut self, found: Option<String>)
        ensures
            final(self).description == found,
            final(self).attached_files == old(self).attached_files,
    {
        self.description = found;
    }

    /// Records the attached files found for the request, if any.
    pub fn attached_files(&mut self, found: Option<String>)
        ensures
            final(self).attached_files == found,
            final(self).description == old(self).description,
    {
        self.attached_files = found;
    }

    pub fn build(self) -> (r: RequestDetails)
        ensures
            r.description == self.description,
            r.attached_files == self.attached_files,
    {
        RequestDetails { description: self.description, attached_files: self.attached_files }
    }
}

/// The user who asked for a part.
#[derive(Debug)]
pub struct Requestor {
    pub user_id: String,
}

impl Requestor {
    /// The fields to store: the user id alone.
    pub fn get_redis_fields(&self) -> (r: Vec<(String, String)>)
        ensures
            pairs_view(r@) == seq![field("user_id"@, self.user_id@)],
    {
        let mut v: Vec<(String, String)> = Vec::new();
        v.push(pair("user_id", &self.user_id));
        proof {
            assert(pairs_view(v@) =~= seq![field("user_id"@, self.user_id@)]);
        }
        v
    }
}

/// Collects the user behind a request, known by the user's id.
#[derive(Debug)]
pub struct RequestorBuilder {
    pub requestor: Option<String>,
}

impl RequestorBuilder {
    pub fn new() -> (r: RequestorBuilder)
        ensures
            r.requestor is None,
    {
        RequestorBuilder { requestor: None }
    }

    /// Records the id of the user found for the request, if any.
    pub fn requestor(&mut self, user_id: Option<String>)
        ensures
            final(self).requestor == user_id,
    {
        self.requestor = user_id;
    }

    /// The requestor, or an error where no user was found.
    pub fn build(&self) -> (r: Result<Requestor, String>)
        ensures
            self.requestor is None <==> r is Err,
            r matches Ok(q) ==> Some(q.user_id) == self.requestor,
    {
        match &self.requestor {
            Some(id) => Ok(Requestor { user_id: id.clone() }),
            None => Err(String::from_str("Requestor cannot be none")),
        }
    }
}

/// A request for a part, as received from the messaging workflow.
#[derive(Debug)]
pub struct PartRequest {
    pub id: String,
    pub origin: String,
    pub origin_reference: String,
    pub timestamp: String,
    pub status: String,
    pub vehicle: Option<VehicleData>,
    pub requestor: Option<Requestor>,
    pub details: Option<RequestDetails>,
}

impl PartRequest {
    pub fn new(id: &str, origin: &str, origin_reference: &str, timestamp: &str, status: &str) -> (r:
        PartRequest)
        ensures
            r.id@ == id@,
            r.origin@ == origin@,
            r.origin_reference@ == origin_reference@,
            r.timestamp@ == timestamp@,
            r.status@ == status@,
            r.vehicle is None && r.requestor is None && r.details is None,
    {
        PartRequest {
            id: id.to_owned(),
            origin: origin.to_owned(),
            origin_reference: origin_reference.to_owned(),
            timestamp: timestamp.to_owned(),
            status: status.to_owned(),
            vehicle: None,
            requestor: None,
            details: None,
        }
    }

    /// The request's own fields to store, in the order id, origin, origin
    /// reference, timestamp, status.
    pub fn get_redis_list(&self) -> (r: Vec<(String, String)>)
        ensures
            pairs_view(r@) == seq![
                field("id"@, self.id@),
                field("origin"@, self.origin@),
                field("origin_reference"@, self.origin_reference@),
                field("timestamp"@, self.timestamp@),
                field("status"@, self.status@),
            ],
    {
        let mut v: Vec<(String, String)> = Vec::new();
        v.push(pair("id", &self.id));
        v.push(pair("origin", &self.origin));
        v.push(pair("origin_reference", &self.origin_reference));
        v.push(pair("timestamp", &self.timestamp));
        v.push(pair("status", &self.status));
        proof {
            assert(pairs_view(v@) =~= seq![
                field("id"@, self.id@),
                field("origin"@, self.origin@),
                field("origin_reference"@, self.origin_reference@),
                field("timestamp"@, self.timestamp@),
                field("status"@, self.status@),
            ]);
        }
        v
    }

    pub fn set_request_details(&mut self, request_details: RequestDetails)
        ensures
            *final(self) == (PartRequest { details: Some(request_details), ..*old(self) }),
    {
        self.details = Some(request_details);
    }

    pub fn set_vehicle_data(&mut self, vehicle_data: VehicleData)
        ensures
            *final(self) == (PartRequest { vehicle: Some(vehicle_data), ..*old(self) }),
    {
        self.vehicle = Some(vehicle_data);
    }

    pub fn set_requestor(&mut self, requestor: Requestor)
        ensures
            *final(self) == (PartRequest { requestor: Some(requestor), ..*old(self) }),
    {
        self.requestor = Some(requestor);
    }
}

} // verus!
