//! String comparison, search and joining over the character view of strings.

use vstd::prelude::*;
use vstd::string::{StrSliceExecFns, StringExecFns};

verus! {

/// The characters of an optional string.
pub open spec fn opt_chars(o: Option<&str>) -> Option<Seq<char>> {
    match o {
        Some(s) => Some(s@),
        None => None,
    }
}

/// Whether two strings have the same characters.
pub fn str_eq(a: &str, b: &str) -> (res: bool)
    ensures
        res == (a@ == b@),
{
    let n = a.unicode_len();
    let m = b.unicode_len();
    if n != m {
        return false;
    }
    let mut i: usize = 0;
    while i < n
        invariant
            n == a@.len(),
            m == b@.len(),
            n == m,
            i <= n,
            forall|j: int| 0 <= j < i ==> a@[j] == b@[j],
        decreases n - i,
    {
        if a.get_char(i) != b.get_char(i) {
            return false;
        }
        i += 1;
    }
    assert(a@ =~= b@);
    true
}

/// `needle` occurs in `hay` at character position `i`.
pub open spec fn occurs_at(hay: Seq<char>, needle: Seq<char>, i: int) -> bool {
    0 <= i && i + needle.len() <= hay.len() && hay.subrange(i, i + needle.len()) == needle
}

/// `needle` occurs somewhere in `hay`.
pub open spec fn contains_seq(hay: Seq<char>, needle: Seq<char>) -> bool {
    exists|i: int| occurs_at(hay, needle, i)
}

/// Whether `needle` occurs in `hay`.
pub fn str_contains(hay: &str, needle: &str) -> (res: bool)
    ensures
        res == contains_seq(hay@, needle@),
{
    let n = hay.unicode_len();
    let m = needle.unicode_len();
    if m > n {
        assert forall|i: int| !occurs_at(hay@, needle@, i) by {}
        return false;
    }
    let mut i: usize = 0;
    while i <= n - m
        invariant
            n == hay@.len(),
            m == needle@.len(),
            m <= n,
            i <= n - m + 1,
            forall|k: int| 0 <= k < i ==> !occurs_at(hay@, needle@, k),
        decreases n - m + 1 - i,
    {
        let mut j: usize = 0;
        let mut matched = true;
        while j < m
            invariant
                n == hay@.len(),
                m == needle@.len(),
                i + m <= n,
                j <= m,
                matched == (forall|k: int| 0 <= k < j ==> hay@[i + k] == needle@[k]),
            decreases m - j,
        {
            if hay.get_char(i + j) != needle.get_char(j) {
                matched = false;
            }
            j += 1;
        }
        if matched {
            assert(hay@.subrange(i as int, i + m) =~= needle@);
            assert(occurs_at(hay@, needle@, i as int));
            return true;
        }
        assert(!occurs_at(hay@, needle@, i as int)) by {
            if occurs_at(hay@, needle@, i as int) {
                let k = choose|k: int| 0 <= k < m && hay@[i + k] != needle@[k];
                assert(hay@.subrange(i as int, i + m)[k] == hay@[i + k]);
            }
        }
        i += 1;
    }
    assert forall|k: int| !occurs_at(hay@, needle@, k) by {
        if 0 <= k && k + m <= n {
            assert(k < i);
        }
    }
    false
}

/// Elements of `list` joined by `sep`.
pub open spec fn joined(list: Seq<Seq<char>>, sep: Seq<char>) -> Seq<char>
    decreases list.len(),
{
    if list.len() == 0 {
        seq![]
    } else if list.len() == 1 {
        list[0]
    } else {
        joined(list.drop_last(), sep) + sep + list.last()
    }
}

/// Joins `list` with `sep` between consecutive elements.
pub fn join_strings(list: &[String], sep: &str) -> (res: String)
    ensures
        res@ == joined(list@.map_values(|s: String| s@), sep@),
{
    let ghost views = list@.map_values(|s: String| s@);
    let mut res = String::new();
    let n = list.len();
    let mut i: usize = 0;
    while i < n
        invariant
            n == list@.len(),
            i <= n,
            views == list@.map_values(|s: String| s@),
            res@ == joined(views.take(i as int), sep@),
        decreases n - i,
    {
        if i != 0 {
            res.append(sep);
        }
        res.append(list[i].as_str());
        assert(views.take(i + 1).drop_last() =~= views.take(i as int));
        i += 1;
    }
    assert(views.take(n as int) =~= views);
    res
}

pub open spec fn digit_char(d: nat) -> char {
    if d == 0 {
        '0'
    } else if d == 1 {
        '1'
    } else if d == 2 {
        '2'
    } else if d == 3 {
        '3'
    } else if d == 4 {
        '4'
    } else if d == 5 {
        '5'
    } else if d == 6 {
        '6'
    } else if d == 7 {
        '7'
    } else if d == 8 {
        '8'
    } else {
        '9'
    }
}

/// The decimal digits of `n`, most significant first, without leading zeros.
pub open spec fn decimal(n: nat) -> Seq<char>
    decreases n,
{
    if n < 10 {
        seq![digit_char(n)]
    } else {
        decimal(n / 10).push(digit_char(n % 10))
    }
}

fn digit(d: usize) -> (c: char)
    requires
        d < 10,
    ensures
        c == digit_char(d as nat),
{
    if d == 0 {
        '0'
    } else if d == 1 {
        '1'
    } else if d == 2 {
        '2'
    } else if d == 3 {
        '3'
    } else if d == 4 {
        '4'
    } else if d == 5 {
        '5'
    } else if d == 6 {
        '6'
    } else if d == 7 {
        '7'
    } else if d == 8 {
        '8'
    } else {
        '9'
    }
}

/// Formats `n` in decimal.
pub fn decimal_string(n: usize) -> (s: String)
    ensures
        s@ == decimal(n as nat),
{
    let mut digits: Vec<char> = Vec::new();
    let mut m = n;
    digits.push(digit(m % 10));
    while m >= 10
        invariant
            digits@.len() >= 1,
            decimal(n as nat) == decimal(m as nat) + rev_tail(digits@),
            digits@[digits@.len() - 1] == digit_char((m % 10) as nat),
        decreases m,
    {
        proof {
            assert(decimal(m as nat) == decimal((m / 10) as nat).push(digit_char((m % 10) as nat)));
        }
        let ghost old_digits = digits@;
        m = m / 10;
        digits.push(digit(m % 10));
        proof {
            assert(rev_tail(digits@) =~= seq![old_digits[old_digits.len() - 1]] + rev_tail(
                old_digits,
            ));
        }
    }
    let mut s = String::new();
    let mut i = digits.len();
    let ghost all = digits@;
    proof {
        assert(decimal(m as nat) =~= seq![digits@[digits@.len() - 1]]);
        assert(all.reverse() =~= seq![all[all.len() - 1]] + rev_tail(all));
    }
    while i > 0
        invariant
            digits@ == all,
            i <= all.len(),
            s@ == all.reverse().take((all.len() - i) as int),
        decreases i,
    {
        i -= 1;
        let c = digits[i];
        s = push_char(s, c);
        assert(s@ =~= all.reverse().take((all.len() - i) as int));
    }
    assert(all.reverse().take(all.len() as int) =~= all.reverse());
    s
}

/// All but the last element, last first.
pub open spec fn rev_tail(s: Seq<char>) -> Seq<char> {
    s.drop_last().reverse()
}

/// Appends one character.
///
/// Calls std's `String::push`; the contract claims the character is added at
/// the end.
#[verifier::external_body]
pub(crate) fn push_char(s: String, c: char) -> (r: String)
    ensures
        r@ == s@.push(c),
{
    let mut s = s;
    s.push(c);
    s
}

} // verus!
