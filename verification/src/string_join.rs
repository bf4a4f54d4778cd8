/*!
Joining sequences with separators, and the decimal formatting it rests on.
*/

use vstd::prelude::*;
use vstd::string::StringExecFns;

verus! {

/// The decimal digit character for `d`.
pub open spec fn spec_digit(d: int) -> char {
    if d == 0 {
        '0'
    } else if d == 1 {
        '1'
    } else if d == 2 {
        '2'
    } else if d == 3 {
        '3'
    } else if d == 4 {
        '4'
    } else if d == 5 {
        '5'
    } else if d == 6 {
        '6'
    } else if d == 7 {
        '7'
    } else if d == 8 {
        '8'
    } else {
        '9'
    }
}

/// The decimal numeral of a nonnegative number.
pub open spec fn spec_decimal(n: int) -> Seq<char>
    decreases n,
{
    if n < 10 {
        seq![spec_digit(n)]
    } else {
        spec_decimal(n / 10).push(spec_digit(n % 10))
    }
}

/// One decimal digit as a string slice.
fn digit_str(d: u64) -> (r: &'static str)
    requires
        d < 10,
    ensures
        r@ == seq![spec_digit(d as int)],
{
    proof {
        reveal_strlit("0");
        reveal_strlit("1");
        reveal_strlit("2");
        reveal_strlit("3");
        reveal_strlit("4");
        reveal_strlit("5");
        reveal_strlit("6");
        reveal_strlit("7");
        reveal_strlit("8");
        reveal_strlit("9");
    }
    let r = match d {
        0 => "0",
        1 => "1",
        2 => "2",
        3 => "3",
        4 => "4",
        5 => "5",
        6 => "6",
        7 => "7",
        8 => "8",
        _ => "9",
    };
    proof {
        assert(r@ =~= seq![spec_digit(d as int)]);
    }
    r
}

/// Renders `n` in decimal.
pub fn u64_to_string(n: u64) -> (s: String)
    ensures
        s@ == spec_decimal(n as int),
    decreases n,
{
    if n < 10 {
        String::from_str(digit_str(n))
    } else {
        let prefix = u64_to_string(n / 10);
        let s = prefix.concat(digit_str(n % 10));
        proof {
            assert(s@ =~= spec_decimal(n as int));
        }
        s
    }
}

/// Interleaves a separator drawn from each following element: the result is
/// `x0, sep(&x1), x1, sep(&x2), x2, ...`.
pub fn join_iter<T: Copy, F: Fn(&T) -> T>(items: &Vec<T>, sep: F) -> (r: Vec<T>)
    requires
        forall|x: &T| #[trigger] call_requires(sep, (x,)),
    ensures
        items@.len() == 0 ==> r@.len() == 0,
        items@.len() > 0 ==> r@.len() == 2 * items@.len() - 1,
        forall|i: int| 0 <= i < items@.len() ==> r@[2 * i] == items@[i],
        forall|i: int|
            1 <= i < items@.len() ==> call_ensures(sep, (&items@[i],), #[trigger] r@[2 * i - 1]),
{
    let mut r: Vec<T> = Vec::new();
    let mut i: usize = 0;
    while i < items.len()
        invariant
            i <= items@.len(),
            i == 0 ==> r@.len() == 0,
            i > 0 ==> r@.len() == 2 * i - 1,
            forall|j: int| 0 <= j < i ==> r@[2 * j] == items@[j],
            forall|j: int|
                1 <= j < i ==> call_ensures(sep, (&items@[j],), #[trigger] r@[2 * j - 1]),
            forall|x: &T| #[trigger] call_requires(sep, (x,)),
        decreases items@.len() - i,
    {
        if i > 0 {
            let s = sep(&items[i]);
            r.push(s);
        }
        r.push(items[i]);
        i = i + 1;
    }
    r
}

/// The numbers of `items` in decimal, separated by `sep`.
pub open spec fn spec_join(items: Seq<u64>, sep: Seq<char>) -> Seq<char>
    decreases items.len(),
{
    if items.len() == 0 {
        Seq::empty()
    } else if items.len() == 1 {
        spec_decimal(items[0] as int)
    } else {
        spec_join(items.drop_last(), sep) + sep + spec_decimal(items.last() as int)
    }
}

/// Joins a list of numbers, rendered in decimal, with the given separator.
pub fn join_string(items: &Vec<u64>, sep: &str) -> (s: String)
    ensures
        s@ == spec_join(items@, sep@),
{
    let mut s = String::new();
    let mut i: usize = 0;
    while i < items.len()
        invariant
            i <= items@.len(),
            s@ == spec_join(items@.take(i as int), sep@),
        decreases items@.len() - i,
    {
        let ghost pre = s@;
        if i > 0 {
            s.append(sep);
        }
        let piece = u64_to_string(items[i]);
        s.append(piece.as_str());
        proof {
            assert(items@.take(i + 1 as int).drop_last() =~= items@.take(i as int));
            assert(items@.take(i + 1 as int).last() == items@[i as int]);
            if i == 0 {
                assert(s@ =~= spec_join(items@.take(i + 1 as int), sep@));
            } else {
                assert(s@ =~= spec_join(items@.take(i + 1 as int), sep@));
            }
        }
        i = i + 1;
    }
    proof {
        assert(items@.take(items@.len() as int) =~= items@);
    }
    s
}

} // verus!
