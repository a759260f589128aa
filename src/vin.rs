use vstd::prelude::*;

verus! {

/// The characters that stand at a VIN's year position, in year order.
pub open spec fn year_codes() -> Seq<char> {
    seq![
        'A', 'B', 'C', 'D', 'E', 'F', 'G', 'H', 'J', 'K', 'L', 'M', 'N', 'P', 'R', 'S', 'T', 'V',
        'W', 'X', 'Y', '1', '2', '3', '4', '5', '6', '7', '8', '9',
    ]
}

/// The first model year of the older rotation of year codes.
pub const FIRST_YEAR: u32 = 1980;

/// The years between the two model years that share a year code.
pub const ROTATION: u32 = 30;

/// The position of a VIN's year character.
pub const VIN_YEAR_POSITION: usize = 9;

/// Whether `c` is the year code `code`, read without regard to case.
pub open spec fn is_code(c: char, code: char) -> bool {
    c == code || ('A' <= code <= 'Z' && c as u32 == code as u32 + 32)
}

/// The decimal digits of `n`, without sign or padding.
pub open spec fn decimal(n: nat) -> Seq<char>
    decreases n,
{
    let digits = seq!['0', '1', '2', '3', '4', '5', '6', '7', '8', '9'];
    if n < 10 {
        seq![digits[n as int]]
    } else {
        decimal(n / 10).push(digits[(n % 10) as int])
    }
}

fn code_table() -> (r: Vec<char>)
    ensures
        r@ == year_codes(),
{
    let r: Vec<char> = vec![
        'A', 'B', 'C', 'D', 'E', 'F', 'G', 'H', 'J', 'K', 'L', 'M', 'N', 'P', 'R', 'S', 'T', 'V',
        'W', 'X', 'Y', '1', '2', '3', '4', '5', '6', '7', '8', '9',
    ];
    assert(r@ =~= year_codes());
    r
}

/// The year codes, each with the two model years it stands for.
pub fn get_year_encodings() -> (r: Vec<(char, (u32, u32))>)
    ensures
        r@.len() == year_codes().len(),
        forall|i: int|
            0 <= i < r@.len() ==> #[trigger] r@[i] == (
                year_codes()[i],
                ((FIRST_YEAR + i) as u32, (FIRST_YEAR + ROTATION + i) as u32),
            ),
{
    let codes = code_table();
    let mut r: Vec<(char, (u32, u32))> = Vec::new();
    let mut i: usize = 0;
    while i < codes.len()
        invariant
            codes@ == year_codes(),
            i <= codes@.len(),
            r@.len() == i,
            forall|j: int|
                0 <= j < i ==> #[trigger] r@[j] == (
                    year_codes()[j],
                    ((FIRST_YEAR + j) as u32, (FIRST_YEAR + ROTATION + j) as u32),
                ),
        decreases codes@.len() - i,
    {
        r.push((codes[i], (FIRST_YEAR + i as u32, FIRST_YEAR + ROTATION + i as u32)));
        i += 1;
    }
    r
}

/// The first year code that `c` is, read without regard to case.
pub open spec fn is_first_code(c: char, i: int) -> bool {
    &&& 0 <= i < year_codes().len()
    &&& is_code(c, year_codes()[i])
    &&& forall|j: int| 0 <= j < i ==> !is_code(c, #[trigger] year_codes()[j])
}

/// The two model years that a VIN's year character stands for: those of the
/// first year code that the character is, read without regard to case. `None`
/// when the VIN is too short or the character is no year code.
pub open spec fn years_for(vin: Seq<char>) -> Option<(u32, u32)> {
    if vin.len() <= VIN_YEAR_POSITION {
        None
    } else if exists|i: int| is_first_code(vin[VIN_YEAR_POSITION as int], i) {
        let i = choose|i: int| is_first_code(vin[VIN_YEAR_POSITION as int], i);
        Some(((FIRST_YEAR + i) as u32, (FIRST_YEAR + ROTATION + i) as u32))
    } else {
        None
    }
}

/// Decodes the model years of a VIN.
pub fn decode_year(vin: &str) -> (r: Option<(u32, u32)>)
    ensures
        r == years_for(vin@),
{
    if vin.unicode_len() <= VIN_YEAR_POSITION {
        return None;
    }
    let c = vin.get_char(VIN_YEAR_POSITION);
    let codes = code_table();
    let mut i: usize = 0;
    while i < codes.len()
        invariant
            codes@ == year_codes(),
            i <= codes@.len(),
            vin@.len() > VIN_YEAR_POSITION,
            c == vin@[VIN_YEAR_POSITION as int],
            forall|j: int| 0 <= j < i ==> !is_code(c, #[trigger] year_codes()[j]),
        decreases codes@.len() - i,
    {
        let code = codes[i];
        if c == code || ('A' <= code && code <= 'Z' && c as u32 == code as u32 + 32) {
            proof {
                assert(is_first_code(c, i as int));
                let k = choose|k: int| is_first_code(c, k);
                if k < i {
                    assert(!is_code(c, year_codes()[k]));
                } else if k > i {
                    assert(!is_code(c, year_codes()[i as int]));
                }
                assert(k == i);
            }
            return Some((FIRST_YEAR + i as u32, FIRST_YEAR + ROTATION + i as u32));
        }
        i += 1;
    }
    None
}

/// The text of one decimal digit.
fn digit_text(d: u32) -> (r: &'static str)
    requires
        d < 10,
    ensures
        r@ == decimal(d as nat),
{
    proof {
        reveal_strlit("0");
        reveal_strlit("1");
        reveal_strlit("2");
        reveal_strlit("3");
        reveal_strlit("4");
        reveal_strlit("5");
        reveal_strlit("6");
        reveal_strlit("7");
        reveal_strlit("8");
        reveal_strlit("9");
    }
    let r = match d {
        0 => "0",
        1 => "1",
        2 => "2",
        3 => "3",
        4 => "4",
        5 => "5",
        6 => "6",
        7 => "7",
        8 => "8",
        _ => "9",
    };
    assert(r@ =~= decimal(d as nat));
    r
}

/// The decimal digits of `n`, without sign or padding.
pub fn decimal_text(n: u32) -> (r: String)
    ensures
        r@ == decimal(n as nat),
    decreases n,
{
    if n < 10 {
        String::from_str(digit_text(n))
    } else {
        let mut r = decimal_text(n / 10);
        r.append(digit_text(n % 10));
        assert(r@ =~= decimal(n as nat));
        r
    }
}

/// The two candidate model years of a VIN, as the text `"first,second"`.
pub fn possible_years(vin: &str) -> (r: Option<String>)
    ensures
        years_for(vin@) is None ==> r is None,
        years_for(vin@) matches Some((a, b)) ==> r matches Some(t) && t@ == decimal(a as nat) + seq![',']
            + decimal(b as nat),
{
    match decode_year(vin) {
        Some((a, b)) => {
            let mut t = decimal_text(a);
            proof {
                reveal_strlit(",");
            }
            t.append(",");
            let second = decimal_text(b);
            t.append(second.as_str());
            Some(t)
        },
        None => None,
    }
}

} // verus!
