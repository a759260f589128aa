//! Hierarchical label classification of part requests.
//!
//! Labels form a forest through their `parent` links, rooted at the sentinel
//! id `"0"`. The engine resolves ancestor chains when a label is assigned to a
//! request and removes whole assigned subtrees when a label is taken off. It
//! holds no store of its own: each operation is a session that asks for store
//! calls and is resumed with the store's replies.
//!
//! `model` describes a store that answers every call and what a complete run
//! of a session against it is; `laws` proves what such runs do: assignment
//! back-fills ancestors and is idempotent, removal takes off a subtree children
//! first and leaves sibling branches, and unknown labels and requests are
//! rejected without changing the store.

pub mod engine;
pub mod fields;
pub mod hierarchy;
pub mod label;
pub mod laws;
pub mod model;
pub mod part_request;
pub mod request;
pub mod store;
pub mod tracker;
pub mod vin;

pub use engine::{
    get_labels, remove_request_labels, retrieve_label_tree, update_request_labels, AssignPhase,
    Assignment, ChildrenLookup, LookupPhase, RemovePhase, Removal,
};
pub use fields::{field_value, ParseError};
pub use hierarchy::remove_label_tree;
pub use label::{is_root, Label};
pub use part_request::{
    PartRequest, RequestDetails, RequestDetailsBuilder, Requestor, RequestorBuilder, VehicleData,
    VehicleDataBuilder,
};
pub use request::{contains, is_nil, LabelUpdate, YearSelection};
pub use store::{unexpected, EngineError, Step, StoreCall, StoreReply, MAX_LABEL_DEPTH};
pub use tracker::{TrackerParam, TrackerStep, VinInformation, WhatsappSource};
pub use vin::{decimal_text, decode_year, get_year_encodings, possible_years, FIRST_YEAR, ROTATION, VIN_YEAR_POSITION};
