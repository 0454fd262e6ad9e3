use vstd::prelude::*;

verus! {

/// What the front end shows for a value: `Infinity` for either infinity,
/// `NaN` for not-a-number, zero with no sign, other values as written. Values
/// are written as `f64`'s `Display` writes them (`inf`, `-inf`, `NaN`, `5`,
/// `-0`, `0.5`), so a whole number shows no fractional part.
pub open spec fn label_of(v: Seq<char>) -> Seq<char> {
    if v == seq!['i', 'n', 'f'] || v == seq!['-', 'i', 'n', 'f'] {
        seq!['I', 'n', 'f', 'i', 'n', 'i', 't', 'y']
    } else if v == seq!['-', '0'] {
        seq!['0']
    } else {
        v
    }
}

/// What the front end shows where an evaluation failed.
pub open spec fn failure_label() -> Seq<char> {
    seq!['E', 'r', 'r', 'o', 'r']
}

/// Whether `a` and `b` hold the same characters.
pub fn same_text(a: &str, b: &str) -> (r: bool)
    ensures
        r == (a@ == b@),
{
    let n = a.unicode_len();
    if n != b.unicode_len() {
        return false;
    }
    let mut i: usize = 0;
    while i < n
        invariant
            i <= n,
            n == a@.len(),
            n == b@.len(),
            forall|k: int| 0 <= k < i ==> a@[k] == b@[k],
        decreases n - i,
    {
        if a.get_char(i) != b.get_char(i) {
            return false;
        }
        i = i + 1;
    }
    assert(a@ =~= b@);
    true
}

/// The text shown for the value of an expression, or for a failed
/// evaluation (`None`).
pub fn result_label(value: Option<&str>) -> (r: String)
    ensures
        match value {
            Some(v) => r@ == label_of(v@),
            None => r@ == failure_label(),
        },
{
    proof {
        reveal_strlit("Error");
        reveal_strlit("inf");
        reveal_strlit("-inf");
        reveal_strlit("Infinity");
        reveal_strlit("-0");
        reveal_strlit("0");
        assert("Error"@ =~= failure_label());
        assert("inf"@ =~= seq!['i', 'n', 'f']);
        assert("-inf"@ =~= seq!['-', 'i', 'n', 'f']);
        assert("Infinity"@ =~= seq!['I', 'n', 'f', 'i', 'n', 'i', 't', 'y']);
        assert("-0"@ =~= seq!['-', '0']);
        assert("0"@ =~= seq!['0']);
    }
    match value {
        None => String::from_str("Error"),
        Some(v) => {
            if same_text(v, "inf") || same_text(v, "-inf") {
                String::from_str("Infinity")
            } else if same_text(v, "-0") {
                String::from_str("0")
            } else {
                String::from_str(v)
            }
        },
    }
}

} // verus!
