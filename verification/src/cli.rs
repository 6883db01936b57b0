use crate::common::text::{decimal_digits, decimal_text, digit_str, digits_text, hex_digit, str_equal};
use crate::common::utf8::{lowercase, lowercase_of};
use crate::leveldb::keys::Dimension;
use vstd::prelude::*;

verus! {

/// The dimension an already lower-cased name selects: `nether`, `the_end`
/// or `end`; any other name selects the overworld.
pub open spec fn dimension_of_lowercase(name: Seq<char>) -> Dimension {
    if name == "nether"@ {
        Dimension::Nether
    } else if name == "the_end"@ || name == "end"@ {
        Dimension::TheEnd
    } else {
        Dimension::Overworld
    }
}

/// The dimension an already lower-cased name selects.
pub fn dimension_from_lowercase(name: &str) -> (res: Dimension)
    ensures
        res == dimension_of_lowercase(name@),
{
    if str_equal(name, "nether") {
        Dimension::Nether
    } else if str_equal(name, "the_end") || str_equal(name, "end") {
        Dimension::TheEnd
    } else {
        Dimension::Overworld
    }
}

/// The dimension a command-line name selects, in any letter case.
pub fn parse_dimension(dim: &str) -> (res: Dimension)
    ensures
        res == dimension_of_lowercase(lowercase_of(dim@)),
{
    let lower = lowercase(dim);
    dimension_from_lowercase(lower.as_str())
}

/// Digits with a comma between each group of three, counted from the right.
pub open spec fn group_thousands(d: Seq<char>) -> Seq<char>
    decreases d.len(),
{
    if d.len() <= 3 {
        d
    } else {
        group_thousands(d.take(d.len() - 3)) + seq![','] + d.skip(d.len() - 3)
    }
}

proof fn lemma_group_step(t: Seq<char>, pos: int)
    requires
        1 <= pos,
        pos + 3 <= t.len(),
    ensures
        group_thousands(t.take(pos + 3)) == group_thousands(t.take(pos)) + seq![','] + t.subrange(pos, pos + 3),
{
    let u = t.take(pos + 3);
    assert(u.take(u.len() - 3) =~= t.take(pos));
    assert(u.skip(u.len() - 3) =~= t.subrange(pos, pos + 3));
}

/// Appends the characters of the digit values `ds[from..to]` to `s`.
fn append_digit_range(s: &mut String, ds: &Vec<u8>, from: usize, to: usize)
    requires
        from <= to <= ds@.len(),
        forall|i: int| 0 <= i < ds@.len() ==> ds@[i] < 16,
    ensures
        final(s)@ == old(s)@ + digits_text(ds@).subrange(from as int, to as int),
{
    let ghost start = s@;
    let mut i = from;
    while i < to
        invariant
            from <= i <= to,
            to <= ds@.len(),
            forall|k: int| 0 <= k < ds@.len() ==> ds@[k] < 16,
            s@ == start + digits_text(ds@).subrange(from as int, i as int),
        decreases to - i,
    {
        s.append(digit_str(ds[i]));
        assert(digits_text(ds@).subrange(from as int, i + 1) =~= digits_text(ds@).subrange(from as int, i as int)
            .push(hex_digit(ds@[i as int] as int)));
        i = i + 1;
    }
}

/// The decimal text of `n` with its digits grouped in threes by commas.
pub fn format_number(n: usize) -> (res: String)
    ensures
        res@ == group_thousands(decimal_text(n as nat)),
{
    let ds = decimal_digits(n as u64);
    let ghost t = digits_text(ds@);
    let len = ds.len();
    let mut pos = len % 3;
    if pos == 0 {
        pos = 3;
    }
    let mut s = String::new();
    append_digit_range(&mut s, &ds, 0, pos);
    assert(s@ =~= group_thousands(t.take(pos as int))) by {
        assert(t.subrange(0, pos as int) =~= t.take(pos as int));
    }
    while pos < len
        invariant
            1 <= pos <= len,
            len == ds@.len(),
            (len - pos) % 3 == 0,
            t == digits_text(ds@),
            forall|k: int| 0 <= k < ds@.len() ==> ds@[k] < 16,
            s@ == group_thousands(t.take(pos as int)),
        decreases len - pos,
    {
        s.append(",");
        proof {
            reveal_strlit(",");
            lemma_group_step(t, pos as int);
        }
        append_digit_range(&mut s, &ds, pos, pos + 3);
        pos = pos + 3;
    }
    assert(t.take(len as int) =~= t);
    s
}

} // verus!
