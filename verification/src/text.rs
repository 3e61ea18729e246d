//! Text: its order, lists of texts, and numbers in decimal.

use vstd::prelude::*;
use std::cmp::Ordering;
use crate::views::views;

verus! {

/// What a string holds.
pub type Text = Seq<char>;

/// `a` and `b` hold the same characters before position `at`.
pub open spec fn agree_before(a: Text, b: Text, at: int) -> bool {
    &&& 0 <= at <= a.len()
    &&& at <= b.len()
    &&& forall|i: int| 0 <= i < at ==> a[i] == b[i]
}

/// `a` comes before `b` in lexicographic order at the position where they part: `a` ends
/// there and `b` goes on, or `a` has the smaller code point.
pub open spec fn parts_below(a: Text, b: Text, at: int) -> bool {
    &&& agree_before(a, b, at)
    &&& at < b.len()
    &&& at == a.len() || a[at] < b[at]
}

/// `a` comes strictly before `b` in lexicographic order by code point.
pub open spec fn precedes(a: Text, b: Text) -> bool {
    exists|at: int| parts_below(a, b, at)
}

/// The first position at which `a` and `b` part, or the end of the shorter one.
fn first_difference(a: &str, b: &str) -> (at: usize)
    ensures
        agree_before(a@, b@, at as int),
        at < a@.len() && at < b@.len() ==> a@[at as int] != b@[at as int],
{
    let a_len: usize = a.unicode_len();
    let b_len: usize = b.unicode_len();
    let mut at: usize = 0;
    while at < a_len && at < b_len && a.get_char(at) == b.get_char(at)
        invariant
            a_len == a@.len(),
            b_len == b@.len(),
            agree_before(a@, b@, at as int),
        decreases a_len - at,
    {
        at = at + 1;
    }
    at
}

/// Whether `a` comes strictly before `b` in lexicographic order.
pub fn text_precedes(a: &str, b: &str) -> (before: bool)
    ensures
        before == precedes(a@, b@),
{
    let at: usize = first_difference(a, b);
    proof {
        lemma_precedes_trichotomy(a@, b@);
    }
    if at == b.unicode_len() {
        assert(at == a@.len() ==> a@ =~= b@);
        assert(at < a@.len() ==> parts_below(b@, a@, at as int));
        false
    } else if at == a.unicode_len() {
        assert(parts_below(a@, b@, at as int));
        true
    } else {
        assert(parts_below(a@, b@, at as int) || parts_below(b@, a@, at as int));
        a.get_char(at) < b.get_char(at)
    }
}

/// The lexicographic order of `a` and `b`.
pub fn text_order(a: &str, b: &str) -> (order: Ordering)
    ensures
        order is Less <==> precedes(a@, b@),
        order is Equal <==> a@ == b@,
        order is Greater <==> precedes(b@, a@),
{
    proof {
        lemma_precedes_trichotomy(a@, b@);
    }
    if text_precedes(a, b) {
        Ordering::Less
    } else if text_precedes(b, a) {
        Ordering::Greater
    } else {
        Ordering::Equal
    }
}

/// No text comes before itself, no two texts come before each other, and of two different
/// texts one comes before the other.
pub proof fn lemma_precedes_trichotomy(a: Text, b: Text)
    ensures
        !precedes(a, a),
        !(precedes(a, b) && precedes(b, a)),
        precedes(a, b) || a == b || precedes(b, a),
{
    if precedes(a, b) && precedes(b, a) {
        let i = choose|i: int| parts_below(a, b, i);
        let j = choose|j: int| parts_below(b, a, j);
        assert(i < j ==> b[i] == a[i]);
        assert(j < i ==> a[j] == b[j]);
        assert(false);
    }
    if !(a =~= b) {
        let shorter = if a.len() <= b.len() { a.len() as int } else { b.len() as int };
        let at = lemma_first_difference(a, b, shorter);
        assert(parts_below(a, b, at) || parts_below(b, a, at));
    }
}

/// The lexicographic order is transitive.
pub proof fn lemma_precedes_transitive(a: Text, b: Text, c: Text)
    requires
        precedes(a, b),
        precedes(b, c),
    ensures
        precedes(a, c),
{
    let i = choose|i: int| parts_below(a, b, i);
    let j = choose|j: int| parts_below(b, c, j);
    let at = if i <= j { i } else { j };
    assert(parts_below(a, c, at));
}

/// Of the positions up to `bound`, the first at which `a` and `b` part.
proof fn lemma_first_difference(a: Text, b: Text, bound: int) -> (at: int)
    requires
        0 <= bound <= a.len(),
        bound <= b.len(),
    ensures
        0 <= at <= bound,
        agree_before(a, b, at),
        at < bound ==> a[at] != b[at],
    decreases bound,
{
    if bound == 0 {
        0
    } else {
        let earlier = lemma_first_difference(a, b, bound - 1);
        if earlier < bound - 1 || a[earlier] != b[earlier] {
            earlier
        } else {
            bound
        }
    }
}

/// A copy of the texts.
pub(crate) fn copy_texts(texts: &Vec<String>) -> (copy: Vec<String>)
    ensures
        views(copy@) == views(texts@),
{
    let mut copy: Vec<String> = Vec::new();
    let mut i: usize = 0;
    while i < texts.len()
        invariant
            i <= texts@.len(),
            copy@ == texts@.take(i as int),
        decreases texts@.len() - i,
    {
        copy.push(texts[i].clone());
        i = i + 1;
        assert(copy@ =~= texts@.take(i as int));
    }
    assert(copy@ =~= texts@);
    copy
}

/// Whether `name` is among `names`.
pub(crate) fn contains_name(names: &Vec<String>, name: &String) -> (found: bool)
    ensures
        found == views(names@).contains(name@),
{
    let mut i: usize = 0;
    while i < names.len()
        invariant
            i <= names@.len(),
            forall|j: int| 0 <= j < i ==> #[trigger] views(names@)[j] != name@,
        decreases names@.len() - i,
    {
        if names[i] == *name {
            assert(views(names@)[i as int] == name@);
            return true;
        }
        i = i + 1;
    }
    false
}

/// The names one after the other, with a comma and a space between neighbours.
pub open spec fn joined(names: Seq<Text>) -> Text
    decreases names.len(),
{
    if names.len() == 0 {
        Seq::empty()
    } else if names.len() == 1 {
        names[0]
    } else {
        joined(names.drop_last()) + ", "@ + names.last()
    }
}

/// The names one after the other, with a comma and a space between neighbours.
pub fn join(names: &Vec<String>) -> (text: String)
    ensures
        text@ == joined(views(names@)),
{
    let mut text: String = String::new();
    let mut i: usize = 0;
    while i < names.len()
        invariant
            i <= names.len(),
            text@ == joined(views(names@).take(i as int)),
        decreases names.len() - i,
    {
        proof {
            assert(views(names@).take(i + 1).drop_last() =~= views(names@).take(i as int));
        }
        if i != 0 {
            text.append(", ");
        }
        text.append(names[i].as_str());
        i = i + 1;
        proof {
            assert(text@ =~= joined(views(names@).take(i as int)));
        }
    }
    proof {
        assert(views(names@).take(i as int) =~= views(names@));
    }
    text
}

/// The decimal digit for `n`, which is below ten.
pub open spec fn digit(n: nat) -> char {
    if n == 0 {
        '0'
    } else if n == 1 {
        '1'
    } else if n == 2 {
        '2'
    } else if n == 3 {
        '3'
    } else if n == 4 {
        '4'
    } else if n == 5 {
        '5'
    } else if n == 6 {
        '6'
    } else if n == 7 {
        '7'
    } else if n == 8 {
        '8'
    } else {
        '9'
    }
}

/// `n` written in decimal, without leading zeros.
pub open spec fn decimal(n: nat) -> Text
    decreases n,
{
    if n < 10 {
        seq![digit(n)]
    } else {
        decimal(n / 10).push(digit(n % 10))
    }
}

/// The decimal digit for `n` as a string.
fn digit_text(n: usize) -> (text: &'static str)
    requires
        n < 10,
    ensures
        text@ == seq![digit(n as nat)],
{
    proof {
        reveal_strlit("0");
        reveal_strlit("1");
        reveal_strlit("2");
        reveal_strlit("3");
        reveal_strlit("4");
        reveal_strlit("5");
        reveal_strlit("6");
        reveal_strlit("7");
        reveal_strlit("8");
        reveal_strlit("9");
    }
    if n == 0 {
        "0"
    } else if n == 1 {
        "1"
    } else if n == 2 {
        "2"
    } else if n == 3 {
        "3"
    } else if n == 4 {
        "4"
    } else if n == 5 {
        "5"
    } else if n == 6 {
        "6"
    } else if n == 7 {
        "7"
    } else if n == 8 {
        "8"
    } else {
        "9"
    }
}

/// `n` written in decimal, without leading zeros.
pub fn number(n: usize) -> (text: String)
    ensures
        text@ == decimal(n as nat),
    decreases n,
{
    if n < 10 {
        digit_text(n).to_owned()
    } else {
        let mut text: String = number(n / 10);
        text.append(digit_text(n % 10));
        proof {
            assert(text@ =~= decimal(n as nat));
        }
        text
    }
}

} // verus!
