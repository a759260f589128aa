use vstd::prelude::*;

verus! {

/// The id that stands for the root of the label forest. No label is stored
/// under it.
pub open spec fn root_id() -> Seq<char> {
    seq!['0']
}

/// A node of the classification taxonomy.
#[derive(Debug, Clone)]
pub struct Label {
    pub id: String,
    pub name: String,
    pub parent: String,
}

impl Label {
    pub fn new(id: &str, name: &str, parent: &str) -> (r: Label)
        ensures
            r.id@ == id@,
            r.name@ == name@,
            r.parent@ == parent@,
    {
        Label { id: id.to_owned(), name: name.to_owned(), parent: parent.to_owned() }
    }

    /// A field-by-field copy of the label.
    pub fn duplicate(&self) -> (r: Label)
        ensures
            r == *self,
    {
        Label { id: self.id.clone(), name: self.name.clone(), parent: self.parent.clone() }
    }

    /// Whether this label hangs directly below the root.
    pub fn is_top_level(&self) -> (r: bool)
        ensures
            r == (self.parent@ == root_id()),
    {
        is_root(&self.parent)
    }
}

/// Whether `id` is the root sentinel `"0"`.
pub fn is_root(id: &String) -> (r: bool)
    ensures
        r == (id@ == root_id()),
{
    let root = String::from_str("0");
    proof {
        reveal_strlit("0");
        assert(root@ =~= root_id());
    }
    *id == root
}

} // verus!
