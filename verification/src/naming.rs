//! Binding keys: how axis names and indices are spelled.

use vstd::prelude::*;
use vstd::string::*;

verus! {

/// The character that stands for a digit below ten.
pub open spec fn digit_char(d: nat) -> char
    recommends
        d < 10,
{
    if d == 0 {
        '0'
    } else if d == 1 {
        '1'
    } else if d == 2 {
        '2'
    } else if d == 3 {
        '3'
    } else if d == 4 {
        '4'
    } else if d == 5 {
        '5'
    } else if d == 6 {
        '6'
    } else if d == 7 {
        '7'
    } else if d == 8 {
        '8'
    } else {
        '9'
    }
}

/// The decimal spelling of a natural number: most significant digit first,
/// no leading zero, no separators.
pub open spec fn decimal(n: nat) -> Seq<char>
    decreases n,
{
    if n < 10 {
        seq![digit_char(n)]
    } else {
        decimal(n / 10).push(digit_char(n % 10))
    }
}

/// The decimal spelling of an integer: a minus sign before the spelling of
/// the magnitude when the number is negative.
pub open spec fn signed_decimal(n: int) -> Seq<char> {
    if n < 0 {
        seq!['-'] + decimal((-n) as nat)
    } else {
        decimal(n as nat)
    }
}

/// The separator that starts every component of a key.
pub open spec fn separator() -> Seq<char> {
    seq!['_', '_']
}

/// The key of the innermost axis: the prefix, the separator, the axis name.
pub open spec fn leaf_key(prefix: Seq<char>, name: Seq<char>) -> Seq<char> {
    prefix + separator() + name
}

/// The prefix handed to the axes under index `index` of an outer axis: the
/// prefix, the separator, the axis name, the index in decimal.
pub open spec fn indexed_prefix(prefix: Seq<char>, name: Seq<char>, index: nat) -> Seq<char> {
    prefix + separator() + name + decimal(index)
}

fn digit_text(d: u64) -> (text: &'static str)
    requires
        d < 10,
    ensures
        text@ == seq![digit_char(d as nat)],
{
    proof {
        reveal_strlit("0");
        reveal_strlit("1");
        reveal_strlit("2");
        reveal_strlit("3");
        reveal_strlit("4");
        reveal_strlit("5");
        reveal_strlit("6");
        reveal_strlit("7");
        reveal_strlit("8");
        reveal_strlit("9");
    }
    let text = if d == 0 {
        "0"
    } else if d == 1 {
        "1"
    } else if d == 2 {
        "2"
    } else if d == 3 {
        "3"
    } else if d == 4 {
        "4"
    } else if d == 5 {
        "5"
    } else if d == 6 {
        "6"
    } else if d == 7 {
        "7"
    } else if d == 8 {
        "8"
    } else {
        "9"
    };
    assert(text@ =~= seq![digit_char(d as nat)]);
    text
}

/// Spells `n` in decimal.
pub fn decimal_text(n: u64) -> (text: String)
    ensures
        text@ == decimal(n as nat),
    decreases n,
{
    if n < 10 {
        String::from_str(digit_text(n))
    } else {
        let mut text = decimal_text(n / 10);
        text.append(digit_text(n % 10));
        assert(text@ =~= decimal(n as nat));
        text
    }
}

/// Spells `n` in decimal, with a minus sign when it is negative.
pub fn signed_decimal_text(n: i64) -> (text: String)
    ensures
        text@ == signed_decimal(n as int),
{
    if n < 0 {
        let magnitude: u64 = if n == i64::MIN {
            9223372036854775808u64
        } else {
            (-n) as u64
        };
        let mut text = String::from_str("-");
        let digits = decimal_text(magnitude);
        text.append(digits.as_str());
        proof {
            reveal_strlit("-");
            assert(text@ =~= signed_decimal(n as int));
        }
        text
    } else {
        decimal_text(n as u64)
    }
}

/// Builds the key of the innermost axis.
pub fn make_leaf_key(prefix: &str, name: &str) -> (key: String)
    ensures
        key@ == leaf_key(prefix@, name@),
{
    let mut key = String::from_str(prefix);
    key.append("__");
    key.append(name);
    proof {
        reveal_strlit("__");
        assert("__"@ =~= separator());
    }
    key
}

/// Builds the prefix for the axes under index `index` of an outer axis.
pub fn make_indexed_prefix(prefix: &str, name: &str, index: u64) -> (next: String)
    ensures
        next@ == indexed_prefix(prefix@, name@, index as nat),
{
    let mut next = make_leaf_key(prefix, name);
    let digits = decimal_text(index);
    next.append(digits.as_str());
    next
}

/// Whether a character is a decimal digit.
pub open spec fn is_digit(c: char) -> bool {
    c == '0' || c == '1' || c == '2' || c == '3' || c == '4' || c == '5' || c == '6' || c == '7'
        || c == '8' || c == '9'
}

/// A decimal spelling is not empty, has two digits or more from ten on, and
/// holds digits only.
pub proof fn lemma_decimal_digits(n: nat)
    ensures
        decimal(n).len() >= 1,
        n >= 10 ==> decimal(n).len() >= 2,
        forall|k: int| 0 <= k < decimal(n).len() ==> is_digit(#[trigger] decimal(n)[k]),
    decreases n,
{
    if n >= 10 {
        lemma_decimal_digits(n / 10);
    }
}

/// Two numbers with the same decimal spelling are the same number.
pub proof fn lemma_decimal_injective(first: nat, second: nat)
    requires
        decimal(first) == decimal(second),
    ensures
        first == second,
    decreases first,
{
    lemma_decimal_digits(first);
    lemma_decimal_digits(second);
    if first < 10 && second < 10 {
        assert(decimal(first)[0] == digit_char(first));
        assert(decimal(second)[0] == digit_char(second));
    } else if first >= 10 && second >= 10 {
        let high = decimal(first / 10);
        let other = decimal(second / 10);
        assert(decimal(first).drop_last() =~= high);
        assert(decimal(second).drop_last() =~= other);
        assert(decimal(first).last() == digit_char(first % 10));
        assert(decimal(second).last() == digit_char(second % 10));
        lemma_decimal_injective(first / 10, second / 10);
    } else {
        assert(decimal(first).len() != decimal(second).len());
    }
}

/// Whether `key` goes on from `prefix` with a separator: every key made
/// under a prefix does.
pub open spec fn extends(key: Seq<char>, prefix: Seq<char>) -> bool {
    &&& key.len() >= prefix.len() + 2
    &&& key.subrange(0, prefix.len() as int) == prefix
    &&& key[prefix.len() as int] == '_'
    &&& key[prefix.len() as int + 1] == '_'
}

/// A key that goes on from the prefix of an index goes on from the prefix
/// that the index was added to.
pub proof fn lemma_extends_outer(key: Seq<char>, prefix: Seq<char>, name: Seq<char>, index: nat)
    requires
        extends(key, indexed_prefix(prefix, name, index)),
    ensures
        extends(key, prefix),
{
    let inner = indexed_prefix(prefix, name, index);
    assert(inner.len() >= prefix.len() + 2);
    assert(inner.subrange(0, prefix.len() as int) =~= prefix);
    assert(key.subrange(0, prefix.len() as int) =~= key.subrange(0, inner.len() as int).subrange(
        0,
        prefix.len() as int,
    ));
    assert(key[prefix.len() as int] == key.subrange(0, inner.len() as int)[prefix.len() as int]);
    assert(key[prefix.len() as int + 1] == key.subrange(0, inner.len() as int)[prefix.len() as int + 1]);
    assert(inner[prefix.len() as int] == '_');
    assert(inner[prefix.len() as int + 1] == '_');
}

/// Keys under different indices of one axis differ.
pub proof fn lemma_indices_part_keys(
    first_key: Seq<char>,
    second_key: Seq<char>,
    prefix: Seq<char>,
    name: Seq<char>,
    first: nat,
    second: nat,
)
    requires
        extends(first_key, indexed_prefix(prefix, name, first)),
        extends(second_key, indexed_prefix(prefix, name, second)),
        first != second,
    ensures
        first_key != second_key,
{
    if first_key == second_key {
        let key = first_key;
        let base = prefix + separator() + name;
        let one = decimal(first);
        let two = decimal(second);
        let with_one = indexed_prefix(prefix, name, first);
        let with_two = indexed_prefix(prefix, name, second);
        lemma_decimal_digits(first);
        lemma_decimal_digits(second);
        assert(with_one =~= base + one);
        assert(with_two =~= base + two);
        assert forall|k: int| 0 <= k < one.len() implies key[base.len() + k] == one[k] by {
            assert(key.subrange(0, with_one.len() as int)[base.len() + k] == with_one[base.len()
                + k]);
        }
        assert forall|k: int| 0 <= k < two.len() implies key[base.len() + k] == two[k] by {
            assert(key.subrange(0, with_two.len() as int)[base.len() + k] == with_two[base.len()
                + k]);
        }
        if one.len() < two.len() {
            assert(key[base.len() as int + one.len() as int] == '_');
            assert(is_digit(two[one.len() as int]));
            assert(false);
        } else if two.len() < one.len() {
            assert(key[base.len() as int + two.len() as int] == '_');
            assert(is_digit(one[two.len() as int]));
            assert(false);
        } else {
            assert(one =~= two);
            lemma_decimal_injective(first, second);
        }
    }
}

} // verus!
