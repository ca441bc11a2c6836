//! Text assembly helpers: joining name lists and rendering decimal numbers.

use vstd::prelude::*;
use vstd::string::StringExecFns;

verus! {

/// The views of a list of strings.
pub open spec fn views_of(items: Seq<String>) -> Seq<Seq<char>> {
    items.map_values(|s: String| s@)
}

/// `items` joined with `sep` between consecutive elements.
pub open spec fn join_with(items: Seq<Seq<char>>, sep: Seq<char>) -> Seq<char>
    decreases items.len(),
{
    if items.len() == 0 {
        Seq::empty()
    } else if items.len() == 1 {
        items[0]
    } else {
        join_with(items.drop_last(), sep) + sep + items.last()
    }
}

/// Appending one more item to a join extends it by one separator and the item.
pub proof fn lemma_join_with_push(s: Seq<Seq<char>>, x: Seq<char>, sep: Seq<char>)
    ensures
        join_with(s.push(x), sep) == if s.len() == 0 {
            x
        } else {
            join_with(s, sep) + sep + x
        },
{
    assert(s.push(x).drop_last() =~= s);
    assert(s.push(x).last() == x);
}

/// Joining a concatenation of two non-empty lists splits into the two joins.
pub proof fn lemma_join_with_concat(a: Seq<Seq<char>>, b: Seq<Seq<char>>, sep: Seq<char>)
    requires
        a.len() > 0,
        b.len() > 0,
    ensures
        join_with(a + b, sep) == join_with(a, sep) + sep + join_with(b, sep),
    decreases b.len(),
{
    if b.len() == 1 {
        assert((a + b).drop_last() =~= a);
        assert((a + b).last() == b[0]);
        assert(join_with(b, sep) == b[0]);
    } else {
        lemma_join_with_concat(a, b.drop_last(), sep);
        assert((a + b).drop_last() =~= a + b.drop_last());
        assert((a + b).last() == b.last());
        assert(join_with(a, sep) + sep + (join_with(b.drop_last(), sep) + sep + b.last()) =~= (join_with(
            a,
            sep,
        ) + sep + join_with(b.drop_last(), sep)) + sep + b.last());
    }
}

/// Mapping to views commutes with appending one string.
pub proof fn lemma_views_of_push(items: Seq<String>, s: String)
    ensures
        views_of(items.push(s)) == views_of(items).push(s@),
{
    assert(views_of(items.push(s)) =~= views_of(items).push(s@));
}

/// Append all of `items` to `out`, with `sep` between consecutive elements.
pub fn push_join(out: &mut String, items: &Vec<String>, sep: &str)
    ensures
        final(out)@ == old(out)@ + join_with(views_of(items@), sep@),
{
    let mut i: usize = 0;
    assert(out@ =~= old(out)@ + join_with(views_of(items@).take(0), sep@));
    while i < items.len()
        invariant
            i <= items.len(),
            out@ == old(out)@ + join_with(views_of(items@).take(i as int), sep@),
        decreases items.len() - i,
    {
        proof {
            lemma_join_with_push(views_of(items@).take(i as int), items@[i as int]@, sep@);
            assert(views_of(items@).take(i as int).push(items@[i as int]@) =~= views_of(
                items@,
            ).take(i + 1));
        }
        if i > 0 {
            out.append(sep);
        }
        out.append(items[i].as_str());
        assert(out@ =~= old(out)@ + join_with(views_of(items@).take(i + 1), sep@));
        i = i + 1;
    }
    assert(views_of(items@).take(items@.len() as int) =~= views_of(items@));
}

/// The single character of a decimal digit, as text.
pub open spec fn digit_str(d: nat) -> Seq<char> {
    if d == 0 {
        "0"@
    } else if d == 1 {
        "1"@
    } else if d == 2 {
        "2"@
    } else if d == 3 {
        "3"@
    } else if d == 4 {
        "4"@
    } else if d == 5 {
        "5"@
    } else if d == 6 {
        "6"@
    } else if d == 7 {
        "7"@
    } else if d == 8 {
        "8"@
    } else {
        "9"@
    }
}

/// The usual decimal rendering of `n`, most significant digit first.
pub open spec fn dec_str(n: nat) -> Seq<char>
    decreases n,
{
    if n < 10 {
        digit_str(n)
    } else {
        dec_str(n / 10) + digit_str(n % 10)
    }
}

/// Append the decimal rendering of `n` to `out`.
pub fn push_dec(out: &mut String, n: usize)
    ensures
        final(out)@ == old(out)@ + dec_str(n as nat),
    decreases n,
{
    if n >= 10 {
        push_dec(out, n / 10);
    }
    let d: usize = n % 10;
    if d == 0 {
        out.append("0");
    } else if d == 1 {
        out.append("1");
    } else if d == 2 {
        out.append("2");
    } else if d == 3 {
        out.append("3");
    } else if d == 4 {
        out.append("4");
    } else if d == 5 {
        out.append("5");
    } else if d == 6 {
        out.append("6");
    } else if d == 7 {
        out.append("7");
    } else if d == 8 {
        out.append("8");
    } else {
        out.append("9");
    }
    assert(out@ =~= old(out)@ + dec_str(n as nat));
}

/// Whether one of `names` reads `target`.
pub fn contains_name(names: &Vec<String>, target: &str) -> (r: bool)
    ensures
        r == views_of(names@).contains(target@),
{
    let t = target.to_owned();
    let mut i: usize = 0;
    assert(forall|k: int|
        0 <= k < names@.len() ==> views_of(names@)[k] == #[trigger] names@[k]@);
    while i < names.len()
        invariant
            i <= names.len(),
            t@ == target@,
            forall|j: int| 0 <= j < i ==> #[trigger] names@[j]@ != target@,
        decreases names.len() - i,
    {
        if names[i] == t {
            assert(views_of(names@)[i as int] == target@);
            return true;
        }
        i = i + 1;
    }
    assert(forall|k: int|
        0 <= k < names@.len() ==> views_of(names@)[k] == #[trigger] names@[k]@);
    false
}

/// How often `c` occurs in `s`.
pub open spec fn count_char(s: Seq<char>, c: char) -> nat
    decreases s.len(),
{
    if s.len() == 0 {
        0
    } else {
        count_char(s.drop_last(), c) + if s.last() == c {
            1nat
        } else {
            0nat
        }
    }
}

/// Character counts add up over concatenation.
pub proof fn lemma_count_char_concat(a: Seq<char>, b: Seq<char>, c: char)
    ensures
        count_char(a + b, c) == count_char(a, c) + count_char(b, c),
    decreases b.len(),
{
    if b.len() == 0 {
        assert(a + b =~= a);
    } else {
        lemma_count_char_concat(a, b.drop_last(), c);
        assert((a + b).drop_last() =~= a + b.drop_last());
        assert((a + b).last() == b.last());
    }
}

} // verus!
