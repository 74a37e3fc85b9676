//! Path strings: how the key of a child is built from the key of its parent.
//!
//! An object member's key is joined to a non-empty parent path with the
//! object separator and stands alone under an empty one. An array element's
//! index is always joined with the array separator, also under an empty
//! parent path.

use vstd::prelude::*;

verus! {

/// The character that writes the digit `d`.
pub open spec fn digit(d: int) -> char {
    if d == 0 {
        '0'
    } else if d == 1 {
        '1'
    } else if d == 2 {
        '2'
    } else if d == 3 {
        '3'
    } else if d == 4 {
        '4'
    } else if d == 5 {
        '5'
    } else if d == 6 {
        '6'
    } else if d == 7 {
        '7'
    } else if d == 8 {
        '8'
    } else {
        '9'
    }
}

/// The decimal numeral of `n`, without sign or leading zeros.
pub open spec fn decimal(n: nat) -> Seq<char>
    decreases n,
{
    if n < 10 {
        seq![digit(n as int)]
    } else {
        decimal(n / 10).push(digit((n % 10) as int))
    }
}

/// A decimal numeral has at least one digit.
pub proof fn lemma_decimal_not_empty(n: nat)
    ensures
        decimal(n).len() >= 1,
    decreases n,
{
    if n >= 10 {
        lemma_decimal_not_empty(n / 10);
    }
}

/// The path of the member `key` of an object at `prefix`.
pub open spec fn member_path(prefix: Seq<char>, separator: Seq<char>, key: Seq<char>) -> Seq<char> {
    if prefix.len() == 0 {
        key
    } else {
        prefix + separator + key
    }
}

/// The path of the element `index` of an array at `prefix`.
pub open spec fn element_path(prefix: Seq<char>, separator: Seq<char>, index: nat) -> Seq<char> {
    prefix + separator + decimal(index)
}

/// The path under which an empty container at `prefix` is recorded.
pub open spec fn empty_path(prefix: Seq<char>, separator: Seq<char>) -> Seq<char> {
    prefix + separator
}

fn digit_text(d: usize) -> (text: &'static str)
    requires
        d < 10,
    ensures
        text@ == seq![digit(d as int)],
{
    proof {
        reveal_strlit("0");
        reveal_strlit("1");
        reveal_strlit("2");
        reveal_strlit("3");
        reveal_strlit("4");
        reveal_strlit("5");
        reveal_strlit("6");
        reveal_strlit("7");
        reveal_strlit("8");
        reveal_strlit("9");
    }
    let text = if d == 0 {
        "0"
    } else if d == 1 {
        "1"
    } else if d == 2 {
        "2"
    } else if d == 3 {
        "3"
    } else if d == 4 {
        "4"
    } else if d == 5 {
        "5"
    } else if d == 6 {
        "6"
    } else if d == 7 {
        "7"
    } else if d == 8 {
        "8"
    } else {
        "9"
    };
    assert(text@ =~= seq![digit(d as int)]);
    text
}

/// Writes `index` as a decimal numeral.
pub fn index_text(index: usize) -> (text: String)
    ensures
        text@ == decimal(index as nat),
    decreases index,
{
    if index < 10 {
        digit_text(index).to_owned()
    } else {
        let mut text = index_text(index / 10);
        text.append(digit_text(index % 10));
        assert(text@ =~= decimal(index as nat));
        text
    }
}

/// Builds the path of the member `key` of an object at `prefix`.
pub fn member_key(prefix: &str, separator: &str, key: &str) -> (path: String)
    ensures
        path@ == member_path(prefix@, separator@, key@),
{
    if prefix.is_empty() {
        key.to_owned()
    } else {
        let mut path = prefix.to_owned();
        path.append(separator);
        path.append(key);
        path
    }
}

/// Builds the path of the element `index` of an array at `prefix`.
pub fn element_key(prefix: &str, separator: &str, index: usize) -> (path: String)
    ensures
        path@ == element_path(prefix@, separator@, index as nat),
{
    let mut path = prefix.to_owned();
    path.append(separator);
    let numeral = index_text(index);
    path.append(numeral.as_str());
    path
}

/// Builds the path under which an empty container at `prefix` is recorded.
pub fn empty_key(prefix: &str, separator: &str) -> (path: String)
    ensures
        path@ == empty_path(prefix@, separator@),
{
    let mut path = prefix.to_owned();
    path.append(separator);
    path
}

} // verus!
