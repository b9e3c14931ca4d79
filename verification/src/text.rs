//! Byte-level text helpers shared by the weight file format, the configuration
//! reader and the command parser: splitting a byte string into maximal runs
//! separated by chosen separator bytes, and reading unsigned decimal numbers.

use vstd::prelude::*;

verus! {

/// Separator test.  In line mode (`nl` true) only a newline separates; in
/// token mode any ASCII whitespace byte separates: space, tab, newline,
/// vertical tab, form feed or carriage return.  (Unicode spaces beyond ASCII
/// do not separate: a token is a maximal run of non-whitespace bytes.)
pub open spec fn spec_is_sep(b: u8, nl: bool) -> bool {
    if nl {
        b == 10
    } else {
        b == 32 || (9 <= b <= 13)
    }
}

pub fn is_sep(b: u8, nl: bool) -> (r: bool)
    ensures
        r == spec_is_sep(b, nl),
{
    if nl {
        b == 10
    } else {
        b == 32 || (9 <= b && b <= 13)
    }
}

/// Length of the leading run of non-separator bytes.
pub open spec fn spec_run_len(s: Seq<u8>, nl: bool) -> int
    decreases s.len(),
{
    if s.len() == 0 || spec_is_sep(s[0], nl) {
        0
    } else {
        1 + spec_run_len(s.drop_first(), nl)
    }
}

pub proof fn lemma_run_len_bounds(s: Seq<u8>, nl: bool)
    ensures
        0 <= spec_run_len(s, nl) <= s.len(),
        forall|i: int| 0 <= i < spec_run_len(s, nl) ==> !spec_is_sep(s[i], nl),
        spec_run_len(s, nl) < s.len() ==> spec_is_sep(s[spec_run_len(s, nl)], nl),
    decreases s.len(),
{
    if s.len() == 0 || spec_is_sep(s[0], nl) {
    } else {
        lemma_run_len_bounds(s.drop_first(), nl);
        assert forall|i: int| 0 <= i < spec_run_len(s, nl) implies !spec_is_sep(s[i], nl) by {
            if i > 0 {
                assert(s.drop_first()[i - 1] == s[i]);
            }
        }
        if spec_run_len(s, nl) < s.len() {
            assert(s.drop_first()[spec_run_len(s, nl) - 1] == s[spec_run_len(s, nl)]);
        }
    }
}

/// A run is determined by its content: if a prefix of `s` is free of
/// separators and is followed by a separator or the end, it is the leading run.
pub proof fn lemma_run_len_exact(s: Seq<u8>, nl: bool, n: int)
    requires
        0 <= n <= s.len(),
        forall|i: int| 0 <= i < n ==> !spec_is_sep(s[i], nl),
        n < s.len() ==> spec_is_sep(s[n], nl),
    ensures
        spec_run_len(s, nl) == n,
    decreases s.len(),
{
    if n == 0 {
    } else {
        assert(!spec_is_sep(s[0], nl));
        assert forall|i: int| 0 <= i < n - 1 implies !spec_is_sep(s.drop_first()[i], nl) by {
            assert(s.drop_first()[i] == s[i + 1]);
        }
        if n - 1 < s.drop_first().len() {
            assert(s.drop_first()[n - 1] == s[n]);
        }
        lemma_run_len_exact(s.drop_first(), nl, n - 1);
    }
}

/// The maximal non-separator runs of `s`, in order.  Separators between,
/// before and after runs are discarded; there are no empty runs.
pub open spec fn spec_split(s: Seq<u8>, nl: bool) -> Seq<Seq<u8>>
    decreases s.len(),
    via spec_split_decreases
{
    if s.len() == 0 {
        Seq::empty()
    } else if spec_is_sep(s[0], nl) {
        spec_split(s.drop_first(), nl)
    } else {
        let n = spec_run_len(s, nl);
        seq![s.take(n)] + spec_split(s.skip(n), nl)
    }
}

#[via_fn]
proof fn spec_split_decreases(s: Seq<u8>, nl: bool) {
    if s.len() != 0 && !spec_is_sep(s[0], nl) {
        lemma_run_len_bounds(s, nl);
    }
}

pub proof fn lemma_split_skip_sep(s: Seq<u8>, nl: bool, i: int)
    requires
        0 <= i <= s.len(),
        forall|k: int| 0 <= k < i ==> spec_is_sep(s[k], nl),
    ensures
        spec_split(s, nl) == spec_split(s.skip(i), nl),
    decreases i,
{
    if i == 0 {
        assert(s.skip(0) =~= s);
    } else {
        assert(spec_split(s, nl) == spec_split(s.drop_first(), nl));
        assert forall|k: int| 0 <= k < i - 1 implies spec_is_sep(s.drop_first()[k], nl) by {
            assert(s.drop_first()[k] == s[k + 1]);
        }
        lemma_split_skip_sep(s.drop_first(), nl, i - 1);
        assert(s.drop_first().skip(i - 1) =~= s.skip(i));
    }
}

/// Splitting off the leading run: if `s` starts with a non-empty
/// separator-free run of length `n` bounded by a separator or the end,
/// the split is that run followed by the split of the remainder.
pub proof fn lemma_split_run(s: Seq<u8>, nl: bool, n: int)
    requires
        0 < n <= s.len(),
        forall|i: int| 0 <= i < n ==> !spec_is_sep(s[i], nl),
        n < s.len() ==> spec_is_sep(s[n], nl),
    ensures
        spec_split(s, nl) == seq![s.take(n)] + spec_split(s.skip(n), nl),
{
    lemma_run_len_exact(s, nl, n);
}

/// Splits a byte string into its maximal non-separator runs.
pub fn split_runs(s: &[u8], nl: bool) -> (r: Vec<Vec<u8>>)
    ensures
        r@.map_values(|t: Vec<u8>| t@) == spec_split(s@, nl),
{
    let ghost whole = s@;
    let mut r: Vec<Vec<u8>> = Vec::new();
    let mut i: usize = 0;
    proof {
        assert(s@.skip(0) =~= s@);
        assert(r@.map_values(|t: Vec<u8>| t@) =~= Seq::<Seq<u8>>::empty());
    }
    while i < s.len()
        invariant
            0 <= i <= s@.len(),
            whole == s@,
            r@.map_values(|t: Vec<u8>| t@) + spec_split(s@.skip(i as int), nl) == spec_split(
                s@,
                nl,
            ),
        decreases s@.len() - i,
    {
        if is_sep(s[i], nl) {
            proof {
                assert(s@.skip(i as int)[0] == s@[i as int]);
                assert(s@.skip(i as int).drop_first() =~= s@.skip(i as int + 1));
            }
            i = i + 1;
        } else {
            let start = i;
            let mut tok: Vec<u8> = Vec::new();
            while i < s.len() && !is_sep(s[i], nl)
                invariant
                    start <= i <= s@.len(),
                    whole == s@,
                    tok@ =~= s@.subrange(start as int, i as int),
                    forall|k: int| start <= k < i ==> !spec_is_sep(s@[k], nl),
                    !spec_is_sep(s@[start as int], nl),
                decreases s@.len() - i,
            {
                tok.push(s[i]);
                proof {
                    assert(tok@ =~= s@.subrange(start as int, i as int + 1));
                }
                i = i + 1;
            }
            proof {
                let rest = s@.skip(start as int);
                let n = i - start;
                assert forall|k: int| 0 <= k < n implies !spec_is_sep(rest[k], nl) by {
                    assert(rest[k] == s@[start + k]);
                }
                if n < rest.len() {
                    assert(rest[n] == s@[i as int]);
                }
                lemma_split_run(rest, nl, n);
                assert(rest.take(n) =~= s@.subrange(start as int, i as int));
                assert(rest.skip(n) =~= s@.skip(i as int));
                assert((r@ + seq![tok]).map_values(|t: Vec<u8>| t@) =~= r@.map_values(
                    |t: Vec<u8>| t@,
                ) + seq![tok@]);
                assert(r@.map_values(|t: Vec<u8>| t@) + (seq![tok@] + spec_split(
                    s@.skip(i as int),
                    nl,
                )) =~= (r@.map_values(|t: Vec<u8>| t@) + seq![tok@]) + spec_split(
                    s@.skip(i as int),
                    nl,
                ));
            }
            r.push(tok);
        }
    }
    proof {
        assert(s@.skip(i as int) =~= Seq::<u8>::empty());
        assert(r@.map_values(|t: Vec<u8>| t@) + Seq::<Seq<u8>>::empty() =~= r@.map_values(
            |t: Vec<u8>| t@,
        ));
    }
    r
}

/// Decimal digit test and value.
pub open spec fn spec_is_digit(b: u8) -> bool {
    48 <= b <= 57
}

/// Value of an all-digit byte string read as a decimal number, most
/// significant digit first.
pub open spec fn spec_dec_value(s: Seq<u8>) -> int
    decreases s.len(),
{
    if s.len() == 0 {
        0
    } else {
        spec_dec_value(s.drop_last()) * 10 + (s.last() - 48)
    }
}

pub open spec fn spec_all_digits(s: Seq<u8>) -> bool {
    forall|i: int| 0 <= i < s.len() ==> spec_is_digit(s[i])
}

/// A parsed unsigned decimal number: non-empty, all digits, value in range.
pub open spec fn spec_parse_u64(s: Seq<u8>) -> Option<u64> {
    if s.len() > 0 && spec_all_digits(s) && spec_dec_value(s) <= u64::MAX {
        Some(spec_dec_value(s) as u64)
    } else {
        None
    }
}

pub proof fn lemma_dec_value_nonneg(s: Seq<u8>)
    requires
        spec_all_digits(s),
    ensures
        spec_dec_value(s) >= 0,
    decreases s.len(),
{
    if s.len() > 0 {
        lemma_dec_value_nonneg(s.drop_last());
    }
}

proof fn lemma_dec_value_grows(s: Seq<u8>, i: int)
    requires
        spec_all_digits(s),
        0 <= i <= s.len(),
    ensures
        spec_dec_value(s.take(i)) <= spec_dec_value(s),
    decreases s.len() - i,
{
    if i == s.len() {
        assert(s.take(i) =~= s);
    } else {
        lemma_dec_value_grows(s, i + 1);
        assert(s.take(i + 1).drop_last() =~= s.take(i));
        assert(spec_all_digits(s.take(i))) by {
            assert(forall|k: int| 0 <= k < i ==> s.take(i)[k] == s[k]);
        }
        lemma_dec_value_nonneg(s.take(i));
        assert(spec_dec_value(s.take(i + 1)) == spec_dec_value(s.take(i)) * 10 + (s[i] - 48));
    }
}

/// Reads a byte string as an unsigned decimal number.  Returns the value
/// exactly when the string is non-empty, all digits, and fits in a `u64`.
pub fn parse_u64(s: &[u8]) -> (r: Option<u64>)
    ensures
        r == spec_parse_u64(s@),
{
    if s.len() == 0 {
        return None;
    }
    let mut acc: u64 = 0;
    let mut i: usize = 0;
    while i < s.len()
        invariant
            0 <= i <= s@.len(),
            s@.len() > 0,
            spec_all_digits(s@.take(i as int)),
            acc == spec_dec_value(s@.take(i as int)),
        decreases s@.len() - i,
    {
        let b = s[i];
        if b < 48 || b > 57 {
            assert(!spec_all_digits(s@));
            return None;
        }
        let d = (b - 48) as u64;
        proof {
            lemma_dec_value_nonneg(s@.take(i as int));
        }
        let hi = match acc.checked_mul(10) {
            Some(h) => h,
            None => {
                proof {
                    assert(spec_all_digits(s@.take(i as int + 1))) by {
                        assert(forall|k: int|
                            0 <= k < i ==> s@.take(i as int + 1)[k] == s@.take(i as int)[k]);
                    }
                    if spec_all_digits(s@) {
                        lemma_dec_value_grows(s@, i as int + 1);
                        assert(s@.take(i as int + 1).drop_last() =~= s@.take(i as int));
                        assert(spec_dec_value(s@.take(i as int + 1)) == acc * 10 + (s@[i as int]
                            - 48));
                    }
                }
                return None;
            },
        };
        let acc2 = match hi.checked_add(d) {
            Some(a) => a,
            None => {
                proof {
                    assert(spec_all_digits(s@.take(i as int + 1))) by {
                        assert(forall|k: int|
                            0 <= k < i ==> s@.take(i as int + 1)[k] == s@.take(i as int)[k]);
                    }
                    if spec_all_digits(s@) {
                        lemma_dec_value_grows(s@, i as int + 1);
                        assert(s@.take(i as int + 1).drop_last() =~= s@.take(i as int));
                        assert(spec_dec_value(s@.take(i as int + 1)) == acc * 10 + (s@[i as int]
                            - 48));
                    }
                }
                return None;
            },
        };
        proof {
            assert(s@.take(i as int + 1).drop_last() =~= s@.take(i as int));
            assert(spec_all_digits(s@.take(i as int + 1))) by {
                assert(forall|k: int| 0 <= k < i ==> s@.take(i as int + 1)[k] == s@.take(i as int)[k]);
            }
        }
        acc = acc2;
        i = i + 1;
    }
    proof {
        assert(s@.take(i as int) =~= s@);
    }
    Some(acc)
}

/// The separator byte a mode writes: a newline between lines, a space
/// between tokens.
pub open spec fn spec_sep_byte(nl: bool) -> u8 {
    if nl {
        10
    } else {
        32
    }
}

/// Parts joined with one trailing separator after each part.
pub open spec fn spec_join_trailing(parts: Seq<Seq<u8>>, sep: u8) -> Seq<u8>
    decreases parts.len(),
{
    if parts.len() == 0 {
        Seq::empty()
    } else {
        parts[0] + seq![sep] + spec_join_trailing(parts.drop_first(), sep)
    }
}

/// Splitting undoes joining: non-empty separator-free parts joined with a
/// trailing separator split back into exactly those parts.
pub proof fn lemma_split_join_trailing(parts: Seq<Seq<u8>>, nl: bool)
    requires
        forall|k: int| 0 <= k < parts.len() ==> (#[trigger] parts[k]).len() > 0,
        forall|k: int, i: int|
            0 <= k < parts.len() && 0 <= i < parts[k].len() ==> !spec_is_sep(
                #[trigger] parts[k][i],
                nl,
            ),
    ensures
        spec_split(spec_join_trailing(parts, spec_sep_byte(nl)), nl) == parts,
    decreases parts.len(),
{
    let sep = spec_sep_byte(nl);
    if parts.len() == 0 {
    } else {
        let s = spec_join_trailing(parts, sep);
        let p0 = parts[0];
        let n = p0.len() as int;
        let rest = spec_join_trailing(parts.drop_first(), sep);
        assert(s == p0 + seq![sep] + rest);
        assert(s.len() == n + 1 + rest.len());
        assert forall|i: int| 0 <= i < n implies !spec_is_sep(s[i], nl) by {
            assert(s[i] == p0[i]);
            assert(!spec_is_sep(parts[0][i], nl));
        }
        assert(s[n] == sep);
        assert(spec_is_sep(sep, nl));
        lemma_split_run(s, nl, n);
        assert(s.take(n) =~= p0);
        assert(s.skip(n)[0] == sep);
        lemma_split_skip_sep(s.skip(n), nl, 1);
        assert(s.skip(n).skip(1) =~= rest);
        assert forall|k: int, i: int|
            0 <= k < parts.drop_first().len() && 0 <= i < parts.drop_first()[k].len() implies !spec_is_sep(
            #[trigger] parts.drop_first()[k][i],
            nl,
        ) by {
            assert(parts.drop_first()[k] == parts[k + 1]);
            assert(!spec_is_sep(parts[k + 1][i], nl));
        }
        assert forall|k: int| 0 <= k < parts.drop_first().len() implies (
        #[trigger] parts.drop_first()[k]).len() > 0 by {
            assert(parts.drop_first()[k] == parts[k + 1]);
        }
        lemma_split_join_trailing(parts.drop_first(), nl);
        assert(spec_split(s, nl) == seq![p0] + parts.drop_first());
        assert(seq![p0] + parts.drop_first() =~= parts);
    }
}

} // verus!
