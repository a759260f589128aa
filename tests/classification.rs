use part_classification::{
    get_labels, remove_label_tree, remove_request_labels, retrieve_label_tree, update_request_labels,
    EngineError, Label, Step, StoreCall, StoreReply, MAX_LABEL_DEPTH,
};

/// An in-memory stand-in for the label store and the request-label set store.
struct FakeStore {
    labels: Vec<Label>,
    requests: Vec<String>,
    assigned: Vec<(String, String)>,
    calls: Vec<String>,
    fail_mutations: bool,
}

impl FakeStore {
    fn new(labels: Vec<Label>, requests: &[&str]) -> FakeStore {
        FakeStore {
            labels,
            requests: requests.iter().map(|r| r.to_string()).collect(),
            assigned: vec![],
            calls: vec![],
            fail_mutations: false,
        }
    }

    fn assign(&mut self, request: &str, label: &str) {
        self.assigned.push((request.to_string(), label.to_string()));
    }

    fn assigned_to(&self, request: &str) -> Vec<String> {
        let mut v: Vec<String> =
            self.assigned.iter().filter(|(r, _)| r == request).map(|(_, l)| l.clone()).collect();
        v.sort();
        v
    }

    fn mutations(&self) -> Vec<String> {
        self.calls.iter().filter(|c| c.starts_with("add") || c.starts_with("remove")).cloned().collect()
    }

    fn answer(&mut self, call: StoreCall) -> StoreReply {
        match call {
            StoreCall::RequestExists(r) => {
                self.calls.push(format!("request-exists {}", r));
                StoreReply::Flag(self.requests.contains(&r))
            }
            StoreCall::LabelExists(x) => {
                self.calls.push(format!("label-exists {}", x));
                StoreReply::Flag(self.labels.iter().any(|l| l.id == x))
            }
            StoreCall::GetLabel(x) => {
                self.calls.push(format!("get {}", x));
                StoreReply::Found(self.labels.iter().find(|l| l.id == x).cloned())
            }
            StoreCall::ChildrenOf(x) => {
                self.calls.push(format!("children {}", x));
                StoreReply::Labels(self.labels.iter().filter(|l| l.parent == x).cloned().collect())
            }
            StoreCall::AssignedLabels(r) => {
                self.calls.push(format!("assigned {}", r));
                let ids = self.assigned_to(&r);
                StoreReply::Labels(self.labels.iter().filter(|l| ids.contains(&l.id)).cloned().collect())
            }
            StoreCall::AddAssignment(r, x) => {
                self.calls.push(format!("add {}", x));
                if self.fail_mutations {
                    return StoreReply::Failed("connection refused".to_string());
                }
                if !self.assigned.contains(&(r.clone(), x.clone())) {
                    self.assigned.push((r, x));
                }
                StoreReply::Added
            }
            StoreCall::RemoveAssignment(r, x) => {
                self.calls.push(format!("remove {}", x));
                if self.fail_mutations {
                    return StoreReply::Failed("connection refused".to_string());
                }
                let before = self.assigned.len();
                self.assigned.retain(|p| !(p.0 == r && p.1 == x));
                StoreReply::Removed((before - self.assigned.len()) as u64)
            }
        }
    }
}

fn run<T>(
    store: &mut FakeStore,
    first: Step<T>,
    mut resume: impl FnMut(StoreReply) -> Step<T>,
) -> Result<T, EngineError> {
    let mut step = first;
    loop {
        match step {
            Step::Call(call) => step = resume(store.answer(call)),
            Step::Done(result) => return result,
        }
    }
}

fn list_children(store: &mut FakeStore, label: &str) -> Result<Vec<Label>, EngineError> {
    let (mut session, first) = get_labels(label.to_string());
    run(store, first, |reply| session.resume(reply))
}

fn assign(store: &mut FakeStore, request: &str, label: &str) -> Result<(), EngineError> {
    let (mut session, first) = update_request_labels(request.to_string(), label.to_string());
    run(store, first, |reply| session.resume(reply))
}

fn remove(store: &mut FakeStore, request: &str, label: &str) -> Result<(), EngineError> {
    let (mut session, first) = remove_request_labels(request.to_string(), label.to_string());
    run(store, first, |reply| session.resume(reply))
}

/// A → B → C below the root, D beside A, and E beside C below B.
fn taxonomy() -> Vec<Label> {
    vec![
        Label::new("a", "Engine", "0"),
        Label::new("b", "Cooling", "a"),
        Label::new("c", "Radiator", "b"),
        Label::new("d", "Body", "0"),
        Label::new("e", "Water pump", "b"),
    ]
}

fn sorted_ids(labels: &[Label]) -> Vec<String> {
    let mut v: Vec<String> = labels.iter().map(|l| l.id.clone()).collect();
    v.sort();
    v
}

#[test]
fn sublabel_found() {
    let mut store = FakeStore::new(taxonomy(), &["r1"]);
    let children = list_children(&mut store, "b").unwrap();
    assert_eq!(sorted_ids(&children), vec!["c", "e"]);
}

#[test]
fn sublabel_not_found() {
    let mut store = FakeStore::new(taxonomy(), &["r1"]);
    let children = list_children(&mut store, "c").unwrap();
    assert!(children.is_empty());
}

#[test]
fn search_returns_label() {
    let register: Vec<String> =
        ["id", "c", "name", "Radiator", "parent", "b"].iter().map(|s| s.to_string()).collect();
    let label = Label::from_fields(&register).unwrap();
    assert_eq!(label.id, "c");
    assert_eq!(label.name, "Radiator");
    assert_eq!(label.parent, "b");
}

#[test]
fn already_added_label() {
    let mut store = FakeStore::new(taxonomy(), &["r1"]);
    assert!(assign(&mut store, "r1", "c").is_ok());
    let once = store.assigned_to("r1");
    assert!(assign(&mut store, "r1", "c").is_ok());
    assert_eq!(store.assigned_to("r1"), once);
}

#[test]
fn ancestor_back_fill() {
    let mut store = FakeStore::new(taxonomy(), &["r1"]);
    store.assign("r1", "d");
    assert!(assign(&mut store, "r1", "c").is_ok());
    assert_eq!(store.assigned_to("r1"), vec!["a", "b", "c", "d"]);
    assert_eq!(store.mutations(), vec!["add c", "add b", "add a"]);
}

#[test]
fn assigning_twice_adds_nothing_new() {
    let mut store = FakeStore::new(taxonomy(), &["r1"]);
    assert!(assign(&mut store, "r1", "e").is_ok());
    let once = store.assigned_to("r1");
    assert!(assign(&mut store, "r1", "e").is_ok());
    assert_eq!(store.assigned_to("r1"), once);
    assert_eq!(once, vec!["a", "b", "e"]);
}

#[test]
fn subtree_removed_children_first() {
    let labels = vec![Label::new("a", "A", "0"), Label::new("b", "B", "a"), Label::new("c", "C", "b")];
    let mut store = FakeStore::new(labels, &["r1"]);
    store.assign("r1", "a");
    store.assign("r1", "b");
    store.assign("r1", "c");
    assert!(remove(&mut store, "r1", "a").is_ok());
    assert!(store.assigned_to("r1").is_empty());
    assert_eq!(store.mutations(), vec!["remove c", "remove b", "remove a"]);
}

#[test]
fn sibling_branch_untouched() {
    let labels = vec![Label::new("a", "A", "0"), Label::new("b", "B", "a"), Label::new("c", "C", "a")];
    let mut store = FakeStore::new(labels, &["r1"]);
    store.assign("r1", "a");
    store.assign("r1", "b");
    store.assign("r1", "c");
    assert!(remove(&mut store, "r1", "b").is_ok());
    assert_eq!(store.assigned_to("r1"), vec!["a", "c"]);
    assert_eq!(store.mutations(), vec!["remove b"]);
}

#[test]
fn root_removal_is_noop() {
    let mut store = FakeStore::new(taxonomy(), &["r1"]);
    store.assign("r1", "a");
    assert!(remove(&mut store, "r1", "0").is_ok());
    assert!(remove(&mut store, "no-such-request", "0").is_ok());
    assert!(store.calls.is_empty());
    assert_eq!(store.assigned_to("r1"), vec!["a"]);
}

#[test]
fn unknown_label_rejected() {
    let mut store = FakeStore::new(taxonomy(), &["r1"]);
    let r = assign(&mut store, "r1", "does-not-exist");
    assert!(matches!(r, Err(EngineError::LabelNotFound(ref id)) if id == "does-not-exist"));
    let r = list_children(&mut store, "does-not-exist");
    assert!(matches!(r, Err(EngineError::LabelNotFound(ref id)) if id == "does-not-exist"));
    assert!(store.mutations().is_empty());
    assert!(store.assigned_to("r1").is_empty());
}

#[test]
fn unknown_request_rejected() {
    let mut store = FakeStore::new(taxonomy(), &["r1"]);
    let r = assign(&mut store, "no-such-request", "c");
    assert!(matches!(r, Err(EngineError::RequestNotFound(ref id)) if id == "no-such-request"));
    assert_eq!(store.calls, vec!["request-exists no-such-request"]);
    let r = remove(&mut store, "no-such-request", "c");
    assert!(matches!(r, Err(EngineError::RequestNotFound(_))));
}

#[test]
fn root_children_listed_without_check() {
    let labels = vec![Label::new("a", "A", "0"), Label::new("b", "B", "a"), Label::new("d", "D", "0")];
    let mut store = FakeStore::new(labels, &[]);
    let children = list_children(&mut store, "0").unwrap();
    assert_eq!(sorted_ids(&children), vec!["a", "d"]);
    assert_eq!(store.calls, vec!["children 0"]);
}

#[test]
fn removing_unassigned_label_is_reported() {
    let mut store = FakeStore::new(taxonomy(), &["r1"]);
    store.assign("r1", "a");
    let r = remove(&mut store, "r1", "b");
    assert!(matches!(r, Err(EngineError::NotAssigned(ref id)) if id == "b"));
}

#[test]
fn store_failure_is_passed_on() {
    let mut store = FakeStore::new(taxonomy(), &["r1"]);
    store.fail_mutations = true;
    let r = assign(&mut store, "r1", "c");
    assert!(matches!(r, Err(EngineError::StoreFailure(ref m)) if m == "connection refused"));
    assert_eq!(store.mutations(), vec!["add c"]);
}

#[test]
fn cyclic_labels_stop_at_depth_limit() {
    let labels = vec![Label::new("x", "X", "y"), Label::new("y", "Y", "x")];
    let mut store = FakeStore::new(labels, &["r1"]);
    let r = assign(&mut store, "r1", "x");
    assert!(matches!(r, Err(EngineError::ChainTooDeep(_))));
    assert!(store.mutations().is_empty());
    let gets = store.calls.iter().filter(|c| c.starts_with("get")).count();
    assert_eq!(gets, MAX_LABEL_DEPTH + 1);
}

#[test]
fn reply_of_wrong_kind_is_rejected() {
    let (mut session, _) = get_labels("a".to_string());
    let r = session.resume(StoreReply::Added);
    assert!(matches!(r, Step::Done(Err(EngineError::UnexpectedReply))));
}

#[test]
fn removal_plan_is_depth_first() {
    let labels = vec![
        Label::new("a", "A", "0"),
        Label::new("b", "B", "a"),
        Label::new("d", "D", "b"),
        Label::new("c", "C", "a"),
        Label::new("z", "Z", "0"),
    ];
    let plan = remove_label_tree(&"a".to_string(), &labels);
    assert_eq!(plan, vec!["d", "b", "c", "a"]);
    let plan = remove_label_tree(&"0".to_string(), &labels);
    assert!(plan.is_empty());
    let plan = remove_label_tree(&"q".to_string(), &labels);
    assert_eq!(plan, vec!["q"]);
}

#[test]
fn walk_step_names_next_parent() {
    let mut chain: Vec<Label> = vec![];
    let r = retrieve_label_tree(&"c".to_string(), Some(Label::new("c", "C", "b")), &mut chain);
    assert_eq!(r.unwrap(), Some("b".to_string()));
    let r = retrieve_label_tree(&"b".to_string(), Some(Label::new("b", "B", "0")), &mut chain);
    assert_eq!(r.unwrap(), None);
    assert_eq!(sorted_ids(&chain), vec!["b", "c"]);
    let r = retrieve_label_tree(&"q".to_string(), None, &mut chain);
    assert!(matches!(r, Err(EngineError::LabelNotFound(ref id)) if id == "q"));
    let r = retrieve_label_tree(&"q".to_string(), Some(Label::new("p", "P", "0")), &mut chain);
    assert!(matches!(r, Err(EngineError::UnexpectedReply)));
    assert_eq!(chain.len(), 2);
}

#[test]
fn walk_stops_at_root_without_lookup() {
    let mut chain: Vec<Label> = vec![Label::new("a", "A", "0")];
    let r = retrieve_label_tree(&"0".to_string(), None, &mut chain);
    assert_eq!(r.unwrap(), None);
    assert_eq!(chain.len(), 1);
}

#[test]
fn root_cannot_be_assigned() {
    let mut store = FakeStore::new(taxonomy(), &["r1"]);
    let r = assign(&mut store, "r1", "0");
    assert!(matches!(r, Err(EngineError::LabelNotFound(ref id)) if id == "0"));
    assert_eq!(store.calls, vec!["request-exists r1"]);
}
