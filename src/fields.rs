use vstd::prelude::*;

use crate::label::Label;

verus! {

/// Why a flat list of (name, value) entries could not be read as a record.
#[derive(Debug)]
pub enum ParseError {
    /// No complete pair carries this field.
    MissingField(String),
    /// This name is no field of the record.
    UnexpectedField(String),
}

/// The value of the last of the first `n` complete (name, value) pairs of `register`
/// that is named `name`. Names stand at even positions, each followed by its value.
pub open spec fn last_value(register: Seq<String>, name: Seq<char>, n: int) -> Option<String>
    decreases n,
{
    if n <= 0 {
        None
    } else if register[2 * (n - 1)]@ == name {
        Some(register[2 * (n - 1) + 1])
    } else {
        last_value(register, name, n - 1)
    }
}

/// The value that `register` gives the field `name`: that of its last pair so named.
pub open spec fn value_of(register: Seq<String>, name: Seq<char>) -> Option<String> {
    last_value(register, name, (register.len() / 2) as int)
}

/// Every name of `register` (every entry at an even position) is one of `known`.
pub open spec fn all_known(register: Seq<String>, known: Seq<Seq<char>>) -> bool {
    forall|i: int| 0 <= i < register.len() && i % 2 == 0 ==> known.contains(#[trigger] register[i]@)
}

/// The value that `register` gives the field `name`.
pub fn field_value(register: &Vec<String>, name: &str) -> (r: Option<String>)
    ensures
        r == value_of(register@, name@),
{
    let wanted = name.to_owned();
    let n = register.len();
    let pairs = n / 2;
    let mut r: Option<String> = None;
    let mut i: usize = 0;
    while i < pairs
        invariant
            n == register@.len(),
            pairs == n / 2,
            i <= pairs,
            wanted@ == name@,
            r == last_value(register@, name@, i as int),
        decreases pairs - i,
    {
        assert(2 * i + 1 < register@.len()) by (nonlinear_arith)
            requires
                i < pairs,
                pairs == n / 2,
                n == register@.len(),
        ;
        let at = i + i;
        if register[at] == wanted {
            r = Some(register[at + 1].clone());
        }
        i += 1;
    }
    r
}

/// The first name of `register` that is none of `known`.
pub(crate) fn unknown_name(register: &Vec<String>, known: &Vec<String>) -> (r: Option<String>)
    ensures
        r is None <==> all_known(register@, known@.map_values(|s: String| s@)),
        r matches Some(n) ==> exists|i: int|
            0 <= i < register@.len() && i % 2 == 0 && register@[i] == n && !known@.map_values(
                |s: String| s@,
            ).contains(n@),
{
    let ghost kv = known@.map_values(|s: String| s@);
    let mut i: usize = 0;
    while i < register.len()
        invariant
            kv == known@.map_values(|s: String| s@),
            i <= register@.len(),
            i % 2 == 0 || i == register@.len(),
            forall|k: int| 0 <= k < i && k % 2 == 0 ==> kv.contains(#[trigger] register@[k]@),
        decreases register@.len() - i,
    {
        let mut j: usize = 0;
        let mut found = false;
        while j < known.len()
            invariant
                kv == known@.map_values(|s: String| s@),
                i < register@.len(),
                j <= known@.len(),
                found ==> kv.contains(register@[i as int]@),
                !found ==> forall|k: int| 0 <= k < j ==> kv[k] != register@[i as int]@,
            decreases known@.len() - j,
        {
            if known[j] == register[i] {
                found = true;
                assert(kv[j as int] == register@[i as int]@);
            }
            j += 1;
        }
        if !found {
            assert(!kv.contains(register@[i as int]@));
            return Some(register[i].clone());
        }
        if i + 1 < register.len() {
            i += 2;
        } else {
            i = register.len();
        }
    }
    None
}

/// The value of a required field, or the error that names it.
fn require_field(register: &Vec<String>, name: &str) -> (r: Result<String, ParseError>)
    ensures
        value_of(register@, name@) matches Some(v) ==> r == Ok::<String, ParseError>(v),
        value_of(register@, name@) is None ==> (r matches Err(ParseError::MissingField(n)) && n@ == name@),
{
    match field_value(register, name) {
        Some(v) => Ok(v),
        None => Err(ParseError::MissingField(name.to_owned())),
    }
}

/// The field names of a stored label.
pub open spec fn label_fields() -> Seq<Seq<char>> {
    seq!["id"@, "name"@, "parent"@]
}

impl Label {
    /// Reads a label from the flat list of names and values that the label store
    /// returns for it. Every one of `id`, `name` and `parent` must be present,
    /// and no other name.
    pub fn from_fields(register: &Vec<String>) -> (r: Result<Label, ParseError>)
        ensures
            r is Ok <==> (forall|k: int| 0 <= k < 3 ==> #[trigger] value_of(register@, label_fields()[k]) is Some)
                && all_known(register@, label_fields()),
            r matches Ok(l) ==> Some(l.id) == value_of(register@, "id"@) && Some(l.name) == value_of(
                register@,
                "name"@,
            ) && Some(l.parent) == value_of(register@, "parent"@),
            r matches Err(ParseError::MissingField(n)) ==> label_fields().contains(n@) && value_of(
                register@,
                n@,
            ) is None,
            r matches Err(ParseError::UnexpectedField(n)) ==> !label_fields().contains(n@),
    {
        let id = match require_field(register, "id") {
            Ok(v) => v,
            Err(e) => return Err(e),
        };
        let name = match require_field(register, "name") {
            Ok(v) => v,
            Err(e) => return Err(e),
        };
        let parent = match require_field(register, "parent") {
            Ok(v) => v,
            Err(e) => return Err(e),
        };
        let known: Vec<String> = vec!["id".to_owned(), "name".to_owned(), "parent".to_owned()];
        proof {
            assert(known@.map_values(|s: String| s@) =~= label_fields());
        }
        match unknown_name(register, &known) {
            Some(n) => Err(ParseError::UnexpectedField(n)),
            None => Ok(Label { id, name, parent }),
        }
    }
}

} // verus!
