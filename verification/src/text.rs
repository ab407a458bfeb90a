//! Building blocks for the texts that the report and the protocol need:
//! decimal numerals, joined lines and string comparison.

use vstd::prelude::*;

verus! {

/// The character that writes the decimal digit `d`.
pub open spec fn digit_char(d: nat) -> char
    recommends
        d < 10,
{
    if d == 0 {
        '0'
    } else if d == 1 {
        '1'
    } else if d == 2 {
        '2'
    } else if d == 3 {
        '3'
    } else if d == 4 {
        '4'
    } else if d == 5 {
        '5'
    } else if d == 6 {
        '6'
    } else if d == 7 {
        '7'
    } else if d == 8 {
        '8'
    } else {
        '9'
    }
}

/// The decimal numeral of `n`: no sign, no leading zero, `"0"` for zero.
pub open spec fn decimal(n: nat) -> Seq<char>
    decreases n,
{
    if n < 10 {
        seq![digit_char(n)]
    } else {
        decimal(n / 10).push(digit_char(n % 10))
    }
}

/// A numeral is never empty.
pub proof fn lemma_decimal_nonempty(n: nat)
    ensures
        decimal(n).len() >= 1,
        n >= 10 ==> decimal(n).len() >= 2,
    decreases n,
{
    if n >= 10 {
        lemma_decimal_nonempty(n / 10);
    }
}

/// Every character of a numeral is one of the ten digits.
pub proof fn lemma_decimal_digits(n: nat, i: int)
    requires
        0 <= i < decimal(n).len(),
    ensures
        exists|d: nat| d < 10 && decimal(n)[i] == #[trigger] digit_char(d),
    decreases n,
{
    if n < 10 {
        assert(decimal(n)[i] == digit_char(n));
    } else if i < decimal(n / 10).len() {
        lemma_decimal_digits(n / 10, i);
    } else {
        assert(decimal(n)[i] == digit_char(n % 10));
    }
}

/// Two numbers with the same numeral are the same number.
pub proof fn lemma_decimal_injective(a: nat, b: nat)
    requires
        decimal(a) == decimal(b),
    ensures
        a == b,
    decreases a,
{
    lemma_decimal_nonempty(a);
    lemma_decimal_nonempty(b);
    if a < 10 && b < 10 {
        assert(decimal(a)[0] == digit_char(a));
        assert(decimal(b)[0] == digit_char(b));
    } else if a < 10 {
        assert(decimal(a).len() == 1);
    } else if b < 10 {
        assert(decimal(b).len() == 1);
    } else {
        let da = decimal(a / 10);
        let db = decimal(b / 10);
        assert(decimal(a).drop_last() =~= da);
        assert(decimal(b).drop_last() =~= db);
        assert(decimal(a).last() == digit_char(a % 10));
        assert(decimal(b).last() == digit_char(b % 10));
        lemma_decimal_injective(a / 10, b / 10);
    }
}

/// The one-character string of the digit `d`.
fn digit_str(d: u64) -> (s: &'static str)
    requires
        d < 10,
    ensures
        s@ == seq![digit_char(d as nat)],
{
    proof {
        reveal_strlit("0");
        reveal_strlit("1");
        reveal_strlit("2");
        reveal_strlit("3");
        reveal_strlit("4");
        reveal_strlit("5");
        reveal_strlit("6");
        reveal_strlit("7");
        reveal_strlit("8");
        reveal_strlit("9");
    }
    let s = if d == 0 {
        "0"
    } else if d == 1 {
        "1"
    } else if d == 2 {
        "2"
    } else if d == 3 {
        "3"
    } else if d == 4 {
        "4"
    } else if d == 5 {
        "5"
    } else if d == 6 {
        "6"
    } else if d == 7 {
        "7"
    } else if d == 8 {
        "8"
    } else {
        "9"
    };
    assert(s@ =~= seq![digit_char(d as nat)]);
    s
}

/// Writes `n` in decimal.
pub fn decimal_string(n: u64) -> (s: String)
    ensures
        s@ == decimal(n as nat),
    decreases n,
{
    if n < 10 {
        String::from_str(digit_str(n))
    } else {
        let mut s = decimal_string(n / 10);
        s.append(digit_str(n % 10));
        assert(s@ =~= decimal(n as nat));
        s
    }
}

/// The position of the first `wanted` in `text`, or the length of `text`
/// where there is none.
pub open spec fn first_index_of(text: Seq<char>, wanted: char) -> int
    decreases text.len(),
{
    if text.len() == 0 {
        0
    } else if text[0] == wanted {
        0
    } else {
        1 + first_index_of(text.drop_first(), wanted)
    }
}

/// What [`first_index_of`] finds is a position of `wanted` that no other
/// precedes, or the length.
pub proof fn lemma_first_index_of(text: Seq<char>, wanted: char)
    ensures
        0 <= first_index_of(text, wanted) <= text.len(),
        first_index_of(text, wanted) < text.len() ==> text[first_index_of(text, wanted)] == wanted,
        forall|i: int| 0 <= i < first_index_of(text, wanted) ==> text[i] != wanted,
    decreases text.len(),
{
    if text.len() > 0 && text[0] != wanted {
        let rest = text.drop_first();
        lemma_first_index_of(rest, wanted);
        assert forall|i: int| 0 <= i < first_index_of(text, wanted) implies text[i] != wanted by {
            if i > 0 {
                assert(text[i] == rest[i - 1]);
            }
        }
    }
}

/// A position of `wanted` that no other precedes is the one that
/// [`first_index_of`] finds.
pub proof fn lemma_first_index_of_is(text: Seq<char>, wanted: char, at: int)
    requires
        0 <= at <= text.len(),
        at < text.len() ==> text[at] == wanted,
        forall|i: int| 0 <= i < at ==> text[i] != wanted,
    ensures
        first_index_of(text, wanted) == at,
{
    lemma_first_index_of(text, wanted);
}

/// Finds the first `wanted` in `text`, counting characters.
pub fn find_char(text: &str, wanted: char) -> (found: Option<usize>)
    ensures
        match found {
            Some(at) => at < text@.len() && at == first_index_of(text@, wanted),
            None => first_index_of(text@, wanted) == text@.len(),
        },
{
    let length = text.unicode_len();
    let mut at: usize = 0;
    for c in chars: text.chars()
        invariant
            at == chars.index(),
            chars.seq() == text@,
            length == text@.len(),
            forall|i: int| 0 <= i < at ==> text@[i] != wanted,
    {
        if c == wanted {
            proof {
                lemma_first_index_of_is(text@, wanted, at as int);
            }
            return Some(at);
        }
        at += 1;
    }
    proof {
        lemma_first_index_of_is(text@, wanted, at as int);
    }
    None
}

/// The parts one after the other, with the separator between each two.
pub open spec fn joined(parts: Seq<Seq<char>>, separator: Seq<char>) -> Seq<char>
    decreases parts.len(),
{
    if parts.len() == 0 {
        Seq::empty()
    } else if parts.len() == 1 {
        parts[0]
    } else {
        joined(parts.drop_last(), separator) + separator + parts.last()
    }
}

/// Joins the parts with the separator between each two.
pub fn join(parts: &Vec<String>, separator: &str) -> (text: String)
    ensures
        text@ == joined(parts.deep_view(), separator@),
{
    let ghost all = parts.deep_view();
    let mut text = String::new();
    let mut i: usize = 0;
    assert(all.take(0) =~= Seq::<Seq<char>>::empty());
    while i < parts.len()
        invariant
            i <= parts.len(),
            all == parts.deep_view(),
            text@ == joined(all.take(i as int), separator@),
        decreases parts.len() - i,
    {
        let ghost next = all.take(i + 1);
        assert(next.drop_last() =~= all.take(i as int));
        assert(next.last() == parts@[i as int]@);
        if i > 0 {
            text.append(separator);
        }
        text.append(parts[i].as_str());
        assert(text@ =~= joined(next, separator@));
        i += 1;
    }
    assert(all.take(i as int) =~= all);
    text
}

/// Whether two string slices hold the same characters.
pub fn str_eq(a: &str, b: &str) -> (same: bool)
    ensures
        same == (a@ == b@),
{
    broadcast use vstd::string::group_string_axioms;

    let length = a.unicode_len();
    if length != b.unicode_len() {
        return false;
    }
    let mut others = b.chars();
    let mut at: usize = 0;
    for c in chars: a.chars()
        invariant
            at == chars.index(),
            chars.seq() == a@,
            length == a@.len(),
            a@.len() == b@.len(),
            vstd::std_specs::iter::IteratorSpec::remaining(&others) == b@.skip(at as int),
            forall|i: int| 0 <= i < at ==> a@[i] == b@[i],
    {
        let other = others.next();
        assert(other == Some(b@[at as int]));
        assert(b@.skip(at as int).drop_first() =~= b@.skip(at + 1));
        match other {
            Some(d) => {
                if c != d {
                    return false;
                }
            },
            None => {},
        }
        at += 1;
    }
    assert(a@ =~= b@);
    true
}

} // verus!
