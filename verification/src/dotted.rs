//! Dot-separated texts: cutting a text at its dots, reading a canonical
//! triple, and collapsing a four-part version into three parts.

use crate::decimal::{
    chars_of, decimal, is_digit, is_digits, lemma_decimal_reads_back, parse_digits, parse_number,
};
use vstd::prelude::*;

verus! {

/// The pieces of `s` between its dots, in order. A text without a dot is one
/// piece; two dots in a row enclose an empty piece.
pub open spec fn split_dots(s: Seq<char>) -> Seq<Seq<char>>
    decreases s.len(),
{
    if s.len() == 0 {
        seq![Seq::<char>::empty()]
    } else {
        let before = split_dots(s.drop_last());
        if s.last() == '.' {
            before.push(Seq::<char>::empty())
        } else {
            before.drop_last().push(before.last().push(s.last()))
        }
    }
}

/// Whether no character of `s` is a dot.
pub open spec fn dot_free(s: Seq<char>) -> bool {
    forall|i: int| 0 <= i < s.len() ==> #[trigger] s[i] != '.'
}

/// The pieces joined again, with a dot between each two.
pub open spec fn join_dots(parts: Seq<Seq<char>>) -> Seq<char>
    decreases parts.len(),
{
    if parts.len() == 0 {
        Seq::<char>::empty()
    } else if parts.len() == 1 {
        parts[0]
    } else {
        join_dots(parts.drop_last()) + seq!['.'] + parts.last()
    }
}

/// Three texts joined by dots.
pub open spec fn join3(a: Seq<char>, b: Seq<char>, c: Seq<char>) -> Seq<char> {
    a + seq!['.'] + b + seq!['.'] + c
}

/// The text `major.minor.patch`, each part a numeral without leading zeros.
pub open spec fn triple_text(triple: (u32, u32, u32)) -> Seq<char> {
    join3(decimal(triple.0 as nat), decimal(triple.1 as nat), decimal(triple.2 as nat))
}

/// Whether `s` is three non-empty runs of ASCII digits joined by two dots.
pub open spec fn is_triple_text(s: Seq<char>) -> bool {
    exists|a: Seq<char>, b: Seq<char>, c: Seq<char>|
        is_digits(a) && is_digits(b) && is_digits(c) && s == #[trigger] join3(a, b, c)
}

/// The triple that `s` denotes: exactly three pieces, each a number that
/// fits in 32 bits. Anything else denotes no triple.
pub open spec fn parse_triple(s: Seq<char>) -> Option<(u32, u32, u32)> {
    let parts = split_dots(s);
    if parts.len() == 3 && parse_number(parts[0]).is_some() && parse_number(parts[1]).is_some()
        && parse_number(parts[2]).is_some() {
        Some(
            (
                parse_number(parts[0]).unwrap(),
                parse_number(parts[1]).unwrap(),
                parse_number(parts[2]).unwrap(),
            ),
        )
    } else {
        None
    }
}

/// The three-part text that a four-part version `a.b.c.d` collapses to:
/// `a.b.(c+d)`, with `a` and `b` kept as written. There is none unless the
/// text has exactly four pieces, the last two are numbers, and their sum fits
/// in 32 bits.
pub open spec fn shortened(s: Seq<char>) -> Option<Seq<char>> {
    let parts = split_dots(s);
    if parts.len() == 4 && parse_number(parts[2]).is_some() && parse_number(parts[3]).is_some()
        && parse_number(parts[2]).unwrap() + parse_number(parts[3]).unwrap() <= u32::MAX {
        Some(
            join3(
                parts[0],
                parts[1],
                decimal((parse_number(parts[2]).unwrap() + parse_number(parts[3]).unwrap()) as nat),
            ),
        )
    } else {
        None
    }
}

/// Cutting always yields at least one piece.
pub proof fn lemma_split_nonempty(s: Seq<char>)
    ensures
        split_dots(s).len() >= 1,
    decreases s.len(),
{
    if s.len() > 0 {
        lemma_split_nonempty(s.drop_last());
    }
}

/// Law: the pieces hold no dot, and joined by dots they are the text again.
pub proof fn lemma_split_rejoins(s: Seq<char>)
    ensures
        forall|k: int| 0 <= k < split_dots(s).len() ==> dot_free(#[trigger] split_dots(s)[k]),
        join_dots(split_dots(s)) == s,
    decreases s.len(),
{
    lemma_split_nonempty(s);
    let parts = split_dots(s);
    if s.len() == 0 {
        assert(join_dots(parts) =~= s);
    } else {
        let before = split_dots(s.drop_last());
        lemma_split_rejoins(s.drop_last());
        lemma_split_nonempty(s.drop_last());
        assert(s.drop_last().push(s.last()) =~= s);
        if s.last() == '.' {
            assert(parts.drop_last() =~= before);
            assert(join_dots(parts) =~= s);
        } else {
            let grown = before.last().push(s.last());
            assert(parts.last() == grown);
            assert(dot_free(grown));
            if before.len() == 1 {
                assert(join_dots(parts) =~= s);
            } else {
                assert(parts.drop_last() =~= before.drop_last());
                assert(join_dots(parts) =~= join_dots(before).push(s.last()));
            }
        }
    }
}

/// Appending a dot opens a new, empty piece.
pub proof fn lemma_split_after_dot(s: Seq<char>)
    ensures
        split_dots(s.push('.')) == split_dots(s).push(Seq::<char>::empty()),
{
    assert(s.push('.').drop_last() =~= s);
}

/// Appending a text without dots only lengthens the last piece.
pub proof fn lemma_split_extend(s: Seq<char>, tail: Seq<char>)
    requires
        dot_free(tail),
    ensures
        split_dots(s + tail) == split_dots(s).drop_last().push(split_dots(s).last() + tail),
    decreases tail.len(),
{
    lemma_split_nonempty(s);
    let parts = split_dots(s);
    if tail.len() == 0 {
        assert(s + tail =~= s);
        assert(parts.last() + tail =~= parts.last());
        assert(parts.drop_last().push(parts.last()) =~= parts);
    } else {
        let shorter = tail.drop_last();
        assert(dot_free(shorter)) by {
            assert forall|i: int| 0 <= i < shorter.len() implies #[trigger] shorter[i] != '.' by {
                assert(shorter[i] == tail[i]);
            }
        }
        lemma_split_extend(s, shorter);
        assert((s + tail).drop_last() =~= s + shorter);
        assert((s + tail).last() == tail.last());
        let before = split_dots(s + shorter);
        assert(before.drop_last() =~= parts.drop_last());
        assert(before.last().push(tail.last()) =~= parts.last() + tail);
    }
}

/// A run of digits holds no dot.
pub proof fn lemma_digits_dot_free(s: Seq<char>)
    requires
        is_digits(s),
    ensures
        dot_free(s),
{
    assert forall|i: int| 0 <= i < s.len() implies #[trigger] s[i] != '.' by {
        assert(is_digit(s[i]));
    }
}

/// Three texts without dots, joined by dots, are cut back into themselves.
pub proof fn lemma_split_join3(a: Seq<char>, b: Seq<char>, c: Seq<char>)
    requires
        dot_free(a),
        dot_free(b),
        dot_free(c),
    ensures
        split_dots(join3(a, b, c)) == seq![a, b, c],
{
    let empty = Seq::<char>::empty();
    lemma_split_extend(empty, a);
    assert(empty + a =~= a);
    assert(split_dots(empty) =~= seq![empty]);
    assert(split_dots(a) =~= seq![a]) by {
        assert(empty + a =~= a);
        assert(seq![empty].drop_last().push(seq![empty].last() + a) =~= seq![a]);
    }
    lemma_split_after_dot(a);
    let a_dot = a + seq!['.'];
    assert(a_dot =~= a.push('.'));
    assert(split_dots(a_dot) =~= seq![a, empty]);
    lemma_split_extend(a_dot, b);
    assert(split_dots(a_dot + b) =~= seq![a, b]) by {
        assert(empty + b =~= b);
    }
    let ab_dot = a_dot + b + seq!['.'];
    lemma_split_after_dot(a_dot + b);
    assert(ab_dot =~= (a_dot + b).push('.'));
    assert(split_dots(ab_dot) =~= seq![a, b, empty]);
    lemma_split_extend(ab_dot, c);
    assert(split_dots(ab_dot + c) =~= seq![a, b, c]) by {
        assert(empty + c =~= c);
    }
    assert(join3(a, b, c) =~= ab_dot + c);
}

/// Four texts without dots, joined by dots, are cut back into themselves.
pub proof fn lemma_split_join4(a: Seq<char>, b: Seq<char>, c: Seq<char>, d: Seq<char>)
    requires
        dot_free(a),
        dot_free(b),
        dot_free(c),
        dot_free(d),
    ensures
        split_dots(join3(a, b, c) + seq!['.'] + d) == seq![a, b, c, d],
{
    let empty = Seq::<char>::empty();
    let abc = join3(a, b, c);
    lemma_split_join3(a, b, c);
    lemma_split_after_dot(abc);
    let abc_dot = abc + seq!['.'];
    assert(abc_dot =~= abc.push('.'));
    assert(split_dots(abc_dot) =~= seq![a, b, c, empty]);
    lemma_split_extend(abc_dot, d);
    assert(split_dots(abc_dot + d) =~= seq![a, b, c, d]) by {
        assert(empty + d =~= d);
    }
}

/// Law: a four-part version `a.b.c.d` whose last two parts are numbers with
/// a sum that fits collapses to `a.b.(c+d)`, and to nothing else.
pub proof fn lemma_shortened_sums_last_two(
    a: Seq<char>,
    b: Seq<char>,
    c: Seq<char>,
    d: Seq<char>,
)
    requires
        dot_free(a),
        dot_free(b),
        parse_number(c).is_some(),
        parse_number(d).is_some(),
        parse_number(c).unwrap() + parse_number(d).unwrap() <= u32::MAX,
    ensures
        shortened(join3(a, b, c) + seq!['.'] + d) == Some(
            join3(a, b, decimal((parse_number(c).unwrap() + parse_number(d).unwrap()) as nat)),
        ),
{
    lemma_digits_dot_free(c);
    lemma_digits_dot_free(d);
    lemma_split_join4(a, b, c, d);
}

/// Law: where the first two parts are numbers as well, the collapsed text
/// denotes the triple `(a, b, c + d)`.
pub proof fn lemma_shortened_triple(a: Seq<char>, b: Seq<char>, c: Seq<char>, d: Seq<char>)
    requires
        parse_number(a).is_some(),
        parse_number(b).is_some(),
        parse_number(c).is_some(),
        parse_number(d).is_some(),
        parse_number(c).unwrap() + parse_number(d).unwrap() <= u32::MAX,
    ensures
        shortened(join3(a, b, c) + seq!['.'] + d).is_some(),
        parse_triple(shortened(join3(a, b, c) + seq!['.'] + d).unwrap()) == Some(
            (
                parse_number(a).unwrap(),
                parse_number(b).unwrap(),
                (parse_number(c).unwrap() + parse_number(d).unwrap()) as u32,
            ),
        ),
{
    let sum = (parse_number(c).unwrap() + parse_number(d).unwrap()) as nat;
    lemma_digits_dot_free(a);
    lemma_digits_dot_free(b);
    lemma_shortened_sums_last_two(a, b, c, d);
    lemma_decimal_reads_back(sum);
    lemma_digits_dot_free(decimal(sum));
    lemma_split_join3(a, b, decimal(sum));
}

/// Law: the text of a triple has the shape digits, dot, digits, dot, digits.
pub proof fn lemma_triple_text_shape(triple: (u32, u32, u32))
    ensures
        is_triple_text(triple_text(triple)),
{
    lemma_decimal_reads_back(triple.0 as nat);
    lemma_decimal_reads_back(triple.1 as nat);
    lemma_decimal_reads_back(triple.2 as nat);
    assert(triple_text(triple) == join3(
        decimal(triple.0 as nat),
        decimal(triple.1 as nat),
        decimal(triple.2 as nat),
    ));
}

/// Law: reading the text of a triple gives the triple back.
pub proof fn lemma_triple_text_reads_back(triple: (u32, u32, u32))
    ensures
        parse_triple(triple_text(triple)) == Some(triple),
{
    let a = decimal(triple.0 as nat);
    let b = decimal(triple.1 as nat);
    let c = decimal(triple.2 as nat);
    lemma_decimal_reads_back(triple.0 as nat);
    lemma_decimal_reads_back(triple.1 as nat);
    lemma_decimal_reads_back(triple.2 as nat);
    lemma_digits_dot_free(a);
    lemma_digits_dot_free(b);
    lemma_digits_dot_free(c);
    lemma_split_join3(a, b, c);
    assert(triple_text(triple) == join3(a, b, c));
}

/// Whether `bounds` marks, piece by piece, where the pieces of `s` lie.
pub open spec fn bounds_of(s: Seq<char>, bounds: Seq<(usize, usize)>) -> bool {
    &&& bounds.len() == split_dots(s).len()
    &&& forall|k: int|
        0 <= k < bounds.len() ==> {
            &&& (#[trigger] bounds[k]).0 <= bounds[k].1 <= s.len()
            &&& split_dots(s)[k] == s.subrange(bounds[k].0 as int, bounds[k].1 as int)
        }
}

/// Finds the pieces of `chars` between its dots, as pairs of a start and an
/// end index.
pub fn split_bounds(chars: &Vec<char>) -> (bounds: Vec<(usize, usize)>)
    ensures
        bounds_of(chars@, bounds@),
{
    let ghost s = chars@;
    let mut bounds: Vec<(usize, usize)> = Vec::new();
    let mut start: usize = 0;
    let mut i: usize = 0;
    proof {
        assert(s.take(0) =~= Seq::<char>::empty());
        assert(s.subrange(0, 0) =~= Seq::<char>::empty());
    }
    while i < chars.len()
        invariant
            s == chars@,
            start <= i <= chars.len(),
            split_dots(s.take(i as int)).len() == bounds.len() + 1,
            split_dots(s.take(i as int)).last() == s.subrange(start as int, i as int),
            forall|k: int|
                0 <= k < bounds.len() ==> {
                    &&& (#[trigger] bounds[k]).0 <= bounds[k].1 <= s.len()
                    &&& split_dots(s.take(i as int))[k] == s.subrange(
                        bounds[k].0 as int,
                        bounds[k].1 as int,
                    )
                },
        decreases chars.len() - i,
    {
        let ghost before = split_dots(s.take(i as int));
        proof {
            assert(s.take(i + 1).drop_last() =~= s.take(i as int));
            assert(s.take(i + 1).last() == s[i as int]);
        }
        if chars[i] == '.' {
            bounds.push((start, i));
            start = i + 1;
            proof {
                assert(s.subrange(start as int, start as int) =~= Seq::<char>::empty());
            }
        } else {
            proof {
                assert(s.subrange(start as int, i as int).push(s[i as int]) =~= s.subrange(
                    start as int,
                    i + 1,
                ));
            }
        }
        i = i + 1;
    }
    proof {
        assert(s.take(i as int) =~= s);
    }
    bounds.push((start, i));
    bounds
}

/// Reads `text` as a canonical triple.
pub fn read_triple(text: &str) -> (triple: Option<(u32, u32, u32)>)
    ensures
        triple == parse_triple(text@),
{
    let chars = chars_of(text);
    let bounds = split_bounds(&chars);
    if bounds.len() != 3 {
        return None;
    }
    let major = parse_digits(&chars, bounds[0].0, bounds[0].1);
    let minor = parse_digits(&chars, bounds[1].0, bounds[1].1);
    let patch = parse_digits(&chars, bounds[2].0, bounds[2].1);
    match (major, minor, patch) {
        (Some(major), Some(minor), Some(patch)) => Some((major, minor, patch)),
        _ => None,
    }
}

} // verus!
