use part_classification::{
    decimal_text, decode_year, get_year_encodings, is_nil, possible_years, ParseError, PartRequest, RequestDetails,
    RequestDetailsBuilder, Requestor, RequestorBuilder, TrackerStep, VehicleDataBuilder,
};

fn strings(v: &[&str]) -> Vec<String> {
    v.iter().map(|s| s.to_string()).collect()
}

fn step_register(status: &str, value: &str) -> Vec<String> {
    strings(&[
        "tracker_id", "t-17", "timestamp", "1700000000", "status", status, "value", value,
        "attached_files", "photo.jpg", "message_reference", "m-3",
    ])
}

fn parsed_value(register: &[String]) -> Option<String> {
    let mut step = TrackerStep::new();
    step.parse_from_redis(&register.to_vec()).ok().map(|s| s.value)
}

fn request_with_vehicle(vin: &str, make: &str, model: &str) -> PartRequest {
    let mut builder = VehicleDataBuilder::new();
    builder.vin(parsed_value(&step_register("7", vin)));
    builder.year();
    builder.make(parsed_value(&step_register("3", make)));
    builder.model(parsed_value(&step_register("5", model)));
    let mut request = PartRequest::new("req-1", "WHATSAPP", "t-17", "1700000000", "PENDING");
    request.set_vehicle_data(builder.build());
    request
}

#[test]
fn decoded_year_current_rotation() {
    assert_eq!(decode_year("1HGCM8263AA004352"), Some((1980, 2010)));
    assert_eq!(decode_year("1HGCM8263YA004352"), Some((2000, 2030)));
    assert_eq!(decode_year("1HGCM82639A004352"), Some((2009, 2039)));
}

#[test]
fn decoded_year_old_rotation() {
    assert_eq!(decode_year("1HGCM8263BA004352"), Some((1981, 2011)));
    assert_eq!(decode_year("1HGCM8263ba004352"), Some((1981, 2011)));
    assert_eq!(decode_year("1HGCM8263JA004352"), Some((1988, 2018)));
    assert_eq!(decode_year("1HGCM8263IA004352"), None);
    assert_eq!(decode_year("1HGCM8263"), None);
}

#[test]
fn year_table_covers_thirty_codes() {
    let table = get_year_encodings();
    assert_eq!(table.len(), 30);
    assert_eq!(table[0], ('A', (1980, 2010)));
    assert_eq!(table[8], ('J', (1988, 2018)));
    assert_eq!(table[29], ('9', (2009, 2039)));
}

#[test]
fn years_are_written_as_text() {
    assert_eq!(possible_years("1HGCM8263PA004352"), Some("1993,2023".to_string()));
    assert_eq!(possible_years("short"), None);
}

#[test]
fn vin_is_set() {
    let request = request_with_vehicle("1HGCM8263AA004352", "Honda", "Accord");
    let vehicle = request.vehicle.unwrap();
    assert_eq!(vehicle.vin.as_deref(), Some("1HGCM8263AA004352"));
    assert_eq!(vehicle.year.as_deref(), Some("1980,2010"));
}

#[test]
fn brand_is_set() {
    let request = request_with_vehicle("1HGCM8263AA004352", "Honda", "Accord");
    assert_eq!(request.vehicle.unwrap().make.as_deref(), Some("Honda"));
}

#[test]
fn model_is_set() {
    let request = request_with_vehicle("1HGCM8263AA004352", "Honda", "Accord");
    assert_eq!(request.vehicle.unwrap().model.as_deref(), Some("Accord"));
}

#[test]
fn vehicle_fields_in_store_order() {
    let request = request_with_vehicle("1HGCM8263AA004352", "Honda", "Accord");
    let fields = request.vehicle.unwrap().get_redis_fields();
    assert_eq!(
        fields,
        vec![
            ("make".to_string(), "Honda".to_string()),
            ("model".to_string(), "Accord".to_string()),
            ("year".to_string(), "1980,2010".to_string()),
            ("vin".to_string(), "1HGCM8263AA004352".to_string()),
        ]
    );
}

#[test]
fn request_fields_in_store_order() {
    let request = PartRequest::new("req-1", "WHATSAPP", "t-17", "1700000000", "PENDING");
    let fields = request.get_redis_list();
    assert_eq!(fields[0], ("id".to_string(), "req-1".to_string()));
    assert_eq!(fields[2], ("origin_reference".to_string(), "t-17".to_string()));
    assert_eq!(fields[4], ("status".to_string(), "PENDING".to_string()));
    assert_eq!(fields.len(), 5);
}

#[test]
fn details_and_requestor_fields() {
    let mut builder = RequestDetailsBuilder::new();
    builder.description(Some("left headlight".to_string()));
    builder.attached_files(Some("photo.jpg".to_string()));
    let details = builder.build();
    assert_eq!(
        details.get_redis_fields(),
        vec![
            ("description".to_string(), "left headlight".to_string()),
            ("attached_files".to_string(), "photo.jpg".to_string()),
        ]
    );
    let requestor = Requestor { user_id: "u-9".to_string() };
    assert_eq!(requestor.get_redis_fields(), vec![("user_id".to_string(), "u-9".to_string())]);
    let mut request = PartRequest::new("req-1", "WHATSAPP", "t-17", "1700000000", "PENDING");
    request.set_request_details(details);
    request.set_requestor(requestor);
    assert_eq!(request.requestor.unwrap().user_id, "u-9");
    assert!(RequestDetails::new().description.is_none());
}

#[test]
fn tracker_step_parsed() {
    let mut step = TrackerStep::new();
    let parsed = step.parse_from_redis(&step_register("9", "left headlight")).unwrap();
    assert_eq!(parsed.value, "left headlight");
    assert_eq!(parsed.status, "9");
    assert_eq!(parsed.attached_files, "photo.jpg");
    assert_eq!(step.message_reference, "m-3");
}

#[test]
fn tracker_step_missing_field() {
    let mut step = TrackerStep::new();
    let register = strings(&["value", "x", "status", "3"]);
    let r = step.parse_from_redis(&register);
    assert!(matches!(r, Err(ParseError::MissingField(ref n)) if n == "tracker_id"));
    assert_eq!(step.value, "");
}

#[test]
fn tracker_step_extra_field() {
    let mut step = TrackerStep::new();
    let mut register = step_register("3", "Honda");
    register.push("colour".to_string());
    register.push("red".to_string());
    let r = step.parse_from_redis(&register);
    assert!(matches!(r, Err(ParseError::UnexpectedField(ref n)) if n == "colour"));
}

#[test]
fn label_with_extra_field_rejected() {
    let register = strings(&["id", "c", "name", "Radiator", "parent", "b", "colour", "red"]);
    let r = part_classification::Label::from_fields(&register);
    assert!(matches!(r, Err(ParseError::UnexpectedField(ref n)) if n == "colour"));
}

#[test]
fn nil_response_recognised() {
    assert!(is_nil("Response was of incompatible type: response was nil"));
    assert!(!is_nil("connection refused"));
}

#[test]
fn requestor_needs_a_user() {
    let mut builder = RequestorBuilder::new();
    assert_eq!(builder.build().unwrap_err(), "Requestor cannot be none");
    builder.requestor(Some("u-9".to_string()));
    assert_eq!(builder.build().unwrap().user_id, "u-9");
}

#[test]
fn numbers_written_in_decimal() {
    assert_eq!(decimal_text(0), "0");
    assert_eq!(decimal_text(7), "7");
    assert_eq!(decimal_text(2039), "2039");
    assert_eq!(decimal_text(4294967295), "4294967295");
}
