//! Turning raw flag values into search parameters: the depth bound (decimal,
//! with a default for malformed values) and the comma-separated extension
//! list (fields trimmed and case folded).

use vstd::prelude::*;
use crate::text::lower;
use crate::text::trim_lower_range;
use crate::text::trim_spec;

verus! {

/// The depth bound used when none is given or the given one is malformed.
pub const DEFAULT_MAX_DEPTH: usize = 2;

/// Whether the character is a decimal digit.
pub open spec fn is_digit(c: char) -> bool {
    c == '0' || c == '1' || c == '2' || c == '3' || c == '4' || c == '5' || c == '6' || c == '7'
        || c == '8' || c == '9'
}

/// The value of a decimal digit character.
pub open spec fn digit_val(c: char) -> nat {
    if c == '0' {
        0
    } else if c == '1' {
        1
    } else if c == '2' {
        2
    } else if c == '3' {
        3
    } else if c == '4' {
        4
    } else if c == '5' {
        5
    } else if c == '6' {
        6
    } else if c == '7' {
        7
    } else if c == '8' {
        8
    } else {
        9
    }
}

/// Whether every character of the string is a decimal digit.
pub open spec fn all_digits(s: Seq<char>) -> bool {
    forall|i: int| 0 <= i < s.len() ==> is_digit(#[trigger] s[i])
}

/// The number denoted by a string of decimal digits.
pub open spec fn dec_value(s: Seq<char>) -> nat
    decreases s.len(),
{
    if s.len() == 0 {
        0
    } else {
        dec_value(s.drop_last()) * 10 + digit_val(s.last())
    }
}

/// The digit portion of a depth value: an optional leading plus sign is
/// allowed, as the standard integer parser accepts one.
pub open spec fn depth_digits(s: Seq<char>) -> Seq<char> {
    if s.len() > 0 && s[0] == '+' {
        s.drop_first()
    } else {
        s
    }
}

/// The depth bound denoted by a flag value: its decimal value when it is a
/// well-formed number that fits the machine, and the default otherwise.
pub open spec fn spec_depth(s: Seq<char>) -> nat {
    let t = depth_digits(s);
    if t.len() > 0 && all_digits(t) && dec_value(t) <= usize::MAX as nat {
        dec_value(t)
    } else {
        DEFAULT_MAX_DEPTH as nat
    }
}

/// A digit string is worth at least as much as any of its prefixes.
proof fn lemma_dec_value_take_le(s: Seq<char>, k: int)
    requires
        0 <= k <= s.len(),
    ensures
        dec_value(s.take(k)) <= dec_value(s),
    decreases s.len() - k,
{
    if k == s.len() {
        assert(s.take(k) =~= s);
    } else {
        assert(s.take(k + 1).drop_last() =~= s.take(k));
        assert(s.take(k + 1).last() == s[k]);
        assert(dec_value(s.take(k + 1)) == dec_value(s.take(k)) * 10 + digit_val(s[k]));
        lemma_dec_value_take_le(s, k + 1);
    }
}

fn digit_of(c: char) -> (r: Option<usize>)
    ensures
        match r {
            Some(d) => is_digit(c) && d < 10 && d as nat == digit_val(c),
            None => !is_digit(c),
        },
{
    match c {
        '0' => Some(0),
        '1' => Some(1),
        '2' => Some(2),
        '3' => Some(3),
        '4' => Some(4),
        '5' => Some(5),
        '6' => Some(6),
        '7' => Some(7),
        '8' => Some(8),
        '9' => Some(9),
        _ => None,
    }
}

/// Parses a depth flag value; a malformed or oversized value falls back to
/// the default depth rather than failing.
pub fn parse_depth(s: &str) -> (r: usize)
    ensures
        r as nat == spec_depth(s@),
{
    let len = s.unicode_len();
    let mut i: usize = 0;
    if len > 0 && s.get_char(0) == '+' {
        i = 1;
    }
    let ghost t = depth_digits(s@);
    let ghost start = i as int;
    proof {
        if s@.len() > 0 && s@[0] == '+' {
            assert(t =~= s@.skip(1));
        } else {
            assert(t =~= s@.skip(0));
        }
    }
    if i == len {
        proof {
            assert(t.len() == 0);
        }
        return DEFAULT_MAX_DEPTH;
    }
    let mut acc: usize = 0;
    proof {
        assert(t.take(0) =~= Seq::<char>::empty());
    }
    while i < len
        invariant
            len == s@.len(),
            0 <= start <= i as int <= len,
            t == depth_digits(s@),
            t == s@.skip(start),
            all_digits(t.take(i as int - start)),
            acc as nat == dec_value(t.take(i as int - start)),
        decreases len - i,
    {
        let c = s.get_char(i);
        proof {
            assert(t[i as int - start] == s@[i as int]);
        }
        let d = match digit_of(c) {
            Some(d) => d,
            None => {
                proof {
                    assert(!is_digit(t[i as int - start]));
                    assert(!all_digits(t));
                }
                return DEFAULT_MAX_DEPTH;
            },
        };
        proof {
            assert(t.take(i as int - start + 1).drop_last() =~= t.take(i as int - start));
            assert(t.take(i as int - start + 1).last() == t[i as int - start]);
            assert(dec_value(t.take(i as int - start + 1)) == acc as nat * 10 + d as nat);
        }
        if acc > usize::MAX / 10 || (acc == usize::MAX / 10 && d > usize::MAX % 10) {
            proof {
                assert(usize::MAX as int == (usize::MAX as int / 10) * 10 + usize::MAX as int
                    % 10);
                assert(acc as int * 10 + d as int > usize::MAX as int);
                lemma_dec_value_take_le(t, i as int - start + 1);
                assert(dec_value(t) > usize::MAX as nat);
            }
            return DEFAULT_MAX_DEPTH;
        }
        proof {
            assert(usize::MAX as int == (usize::MAX as int / 10) * 10 + usize::MAX as int % 10);
            assert(acc as int * 10 + d as int <= usize::MAX as int);
        }
        acc = acc * 10 + d;
        i = i + 1;
    }
    proof {
        assert(t.take(len - start) =~= t);
        assert(t.len() > 0);
    }
    acc
}

/// How a string splits at its commas: the comma-free fields in order; a
/// string without commas is a single field, and adjacent commas enclose an
/// empty one.
pub open spec fn split_commas(s: Seq<char>) -> Seq<Seq<char>>
    decreases s.len(),
{
    if s.len() == 0 {
        seq![Seq::<char>::empty()]
    } else if s[0] == ',' {
        seq![Seq::<char>::empty()] + split_commas(s.drop_first())
    } else {
        let rest = split_commas(s.drop_first());
        seq![seq![s[0]] + rest[0]] + rest.drop_first()
    }
}

/// A normalized extension field: trimmed, then case folded.
pub open spec fn norm_field(f: Seq<char>) -> Seq<char> {
    lower(trim_spec(f))
}

/// The extension filter denoted by a comma-separated flag value.
pub open spec fn spec_extensions(s: Seq<char>) -> Seq<Seq<char>> {
    split_commas(s).map_values(|f: Seq<char>| norm_field(f))
}

proof fn lemma_split_no_comma(s: Seq<char>)
    requires
        forall|i: int| 0 <= i < s.len() ==> s[i] != ',',
    ensures
        split_commas(s) =~~= seq![s],
    decreases s.len(),
{
    if s.len() == 0 {
        assert(s =~= Seq::<char>::empty());
    } else {
        assert forall|i: int| 0 <= i < s.drop_first().len() implies s.drop_first()[i] != ',' by {
            assert(s.drop_first()[i] == s[i + 1]);
        }
        lemma_split_no_comma(s.drop_first());
        assert(seq![s[0]] + s.drop_first() =~= s);
    }
}

proof fn lemma_split_first_comma(s: Seq<char>, k: int)
    requires
        0 <= k < s.len(),
        s[k] == ',',
        forall|i: int| 0 <= i < k ==> s[i] != ',',
    ensures
        split_commas(s) =~~= seq![s.take(k)] + split_commas(s.skip(k + 1)),
    decreases k,
{
    if k == 0 {
        assert(s.take(0) =~= Seq::<char>::empty());
        assert(s.skip(1) =~= s.drop_first());
    } else {
        let df = s.drop_first();
        assert(df[k - 1] == s[k]);
        assert forall|i: int| 0 <= i < k - 1 implies df[i] != ',' by {
            assert(df[i] == s[i + 1]);
        }
        lemma_split_first_comma(df, k - 1);
        assert(seq![s[0]] + df.take(k - 1) =~= s.take(k));
        assert(df.skip(k) =~= s.skip(k + 1));
        let rest = split_commas(df);
        assert(rest == seq![df.take(k - 1)] + split_commas(df.skip(k)));
        assert(rest[0] == df.take(k - 1));
        assert(rest.drop_first() =~= split_commas(df.skip(k)));
        assert(seq![seq![s[0]] + rest[0]] + rest.drop_first() =~~= seq![s.take(k)]
            + split_commas(s.skip(k + 1)));
    }
}

/// Splits a comma-separated extension flag value into its fields, each
/// trimmed and case folded.
pub fn parse_extensions(s: &str) -> (r: Vec<String>)
    ensures
        r.deep_view() == spec_extensions(s@),
    decreases s@.len(),
{
    let len = s.unicode_len();
    let mut k: usize = 0;
    while k < len && s.get_char(k) != ','
        invariant
            len == s@.len(),
            k <= len,
            forall|i: int| 0 <= i < k ==> s@[i] != ',',
        decreases len - k,
    {
        k = k + 1;
    }
    if k == len {
        let field = trim_lower_range(s, 0, len);
        let mut out: Vec<String> = Vec::new();
        out.push(field);
        proof {
            assert(s@.subrange(0, len as int) =~= s@);
            lemma_split_no_comma(s@);
            assert(spec_extensions(s@) =~= seq![norm_field(s@)]);
            assert(out.deep_view() =~= seq![norm_field(s@)]);
        }
        out
    } else {
        let field = trim_lower_range(s, 0, k);
        let rest_str = s.substring_char(k + 1, len);
        let mut rest = parse_extensions(rest_str);
        let ghost rest_fields = rest.deep_view();
        let mut out: Vec<String> = Vec::new();
        out.push(field);
        out.append(&mut rest);
        proof {
            lemma_split_first_comma(s@, k as int);
            assert(rest_str@ =~= s@.skip(k as int + 1));
            assert(s@.subrange(0, k as int) =~= s@.take(k as int));
            assert(spec_extensions(s@) =~= seq![norm_field(s@.take(k as int))]
                + spec_extensions(s@.skip(k as int + 1)));
            assert(out.deep_view() =~= seq![field@] + rest_fields);
        }
        out
    }
}

} // verus!
