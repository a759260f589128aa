use vstd::prelude::*;

verus! {

/// The label named in a request to assign or remove a label.
#[derive(Debug)]
pub struct LabelUpdate {
    pub label_id: String,
}

/// The model year that a user picked for a request.
#[derive(Debug)]
pub struct YearSelection {
    pub year_selected: String,
}

/// `pattern` stands in `text` from position `i` on.
pub open spec fn occurs_at(text: Seq<char>, pattern: Seq<char>, i: int) -> bool {
    0 <= i && i + pattern.len() <= text.len() && text.subrange(i, i + pattern.len()) == pattern
}

/// `pattern` stands somewhere in `text`.
pub open spec fn contains_text(text: Seq<char>, pattern: Seq<char>) -> bool {
    exists|i: int| occurs_at(text, pattern, i)
}

/// Whether `text` holds `pattern`.
pub fn contains(text: &str, pattern: &str) -> (r: bool)
    ensures
        r == contains_text(text@, pattern@),
{
    let n = text.unicode_len();
    let m = pattern.unicode_len();
    if m == 0 {
        assert(text@.subrange(0, 0) =~= pattern@);
        assert(occurs_at(text@, pattern@, 0));
        return true;
    }
    if m > n {
        return false;
    }
    let mut i: usize = 0;
    while i <= n - m
        invariant
            n == text@.len(),
            m == pattern@.len(),
            1 <= m <= n,
            forall|k: int| 0 <= k < i ==> !occurs_at(text@, pattern@, k),
        decreases n - m + 1 - i,
    {
        let mut j: usize = 0;
        let mut same = true;
        while j < m
            invariant
                n == text@.len(),
                m == pattern@.len(),
                i + m <= n,
                j <= m,
                same ==> forall|k: int| 0 <= k < j ==> text@[i + k] == pattern@[k],
                !same ==> !occurs_at(text@, pattern@, i as int),
            decreases m - j,
        {
            if text.get_char(i + j) != pattern.get_char(j) {
                if same {
                    assert(text@.subrange(i as int, i + m)[j as int] == text@[i + j]);
                }
                same = false;
            }
            j += 1;
        }
        if same {
            assert(text@.subrange(i as int, i + m) =~= pattern@);
            assert(occurs_at(text@, pattern@, i as int));
            return true;
        }
        i += 1;
    }
    proof {
        assert forall|k: int| !occurs_at(text@, pattern@, k) by {
            if 0 <= k && k + m <= n {
                assert(k < i);
            }
        }
    }
    false
}

/// Whether a store error message says that the key had no value.
pub fn is_nil(message: &str) -> (r: bool)
    ensures
        r == contains_text(message@, "response was nil"@),
{
    contains(message, "response was nil")
}

} // verus!
