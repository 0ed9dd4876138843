//! Oxidation-state cell parsing. A cell is split on commas; each token is
//! trimmed and must begin with `+`, `-` or a literal `0`, followed by decimal
//! digits assembled into a signed magnitude. A token with any other leading
//! character, or whose value does not fit the signed byte range, is silently
//! skipped: such tokens are annotations in the source data, not corruption.
use vstd::prelude::*;

use crate::text::{
    digits_val, exec_is_digit, is_digit, lemma_digits_val_nonneg, lemma_digits_val_prefix, trim,
    trim_range,
};

verus! {

// ---------------------------------------------------------------------------
// Splitting on commas
// ---------------------------------------------------------------------------
/// Splits `s` into comma-separated tokens, `acc` being the partial token
/// read so far; an empty cell yields one empty token.
pub open spec fn split_commas(s: Seq<char>, acc: Seq<char>) -> Seq<Seq<char>>
    decreases s.len(),
{
    if s.len() == 0 {
        seq![acc]
    } else if s[0] == ',' {
        seq![acc] + split_commas(s.skip(1), seq![])
    } else {
        split_commas(s.skip(1), acc.push(s[0]))
    }
}

// ---------------------------------------------------------------------------
// One token
// ---------------------------------------------------------------------------
/// Length of the longest all-digit prefix.
pub open spec fn digit_prefix_len(s: Seq<char>) -> nat
    decreases s.len(),
{
    if s.len() > 0 && is_digit(s[0]) {
        1 + digit_prefix_len(s.skip(1))
    } else {
        0
    }
}

pub proof fn lemma_digit_prefix(s: Seq<char>)
    ensures
        digit_prefix_len(s) <= s.len(),
        forall|j: int| 0 <= j < digit_prefix_len(s) ==> is_digit(#[trigger] s[j]),
        digit_prefix_len(s) < s.len() ==> !is_digit(s[digit_prefix_len(s) as int]),
    decreases s.len(),
{
    if s.len() > 0 && is_digit(s[0]) {
        lemma_digit_prefix(s.skip(1));
        assert forall|j: int| 0 <= j < digit_prefix_len(s) implies is_digit(s[j]) by {
            if j > 0 {
                assert(is_digit(s.skip(1)[j - 1]));
                assert(s.skip(1)[j - 1] == s[j]);
            }
        }
        if digit_prefix_len(s) < s.len() {
            assert(s[digit_prefix_len(s) as int] == s.skip(1)[digit_prefix_len(s.skip(1)) as int]);
        }
    }
}

/// The magnitude digits of a token: the digit prefix of what follows the
/// leading sign character.
pub open spec fn token_magnitude(t: Seq<char>) -> int {
    digits_val(t.skip(1).take(digit_prefix_len(t.skip(1)) as int))
}

/// Meaning of one comma-separated token: the signed oxidation state it
/// denotes, or nothing if the token is malformed and must be skipped.
pub open spec fn spec_ox_token(tok: Seq<char>) -> Option<i8> {
    let t = trim(tok);
    if t.len() == 0 {
        None
    } else if t[0] == '-' {
        if token_magnitude(t) <= 128 {
            Some((-token_magnitude(t)) as i8)
        } else {
            None
        }
    } else if t[0] == '+' || t[0] == '0' {
        if token_magnitude(t) <= 127 {
            Some(token_magnitude(t) as i8)
        } else {
            None
        }
    } else {
        None
    }
}

/// The states denoted by a token sequence, malformed tokens skipped.
pub open spec fn spec_ox_tokens(toks: Seq<Seq<char>>) -> Seq<i8>
    decreases toks.len(),
{
    if toks.len() == 0 {
        seq![]
    } else {
        spec_ox_tokens(toks.drop_last()) + match spec_ox_token(toks.last()) {
            Some(v) => seq![v],
            None => seq![],
        }
    }
}

/// Meaning of a whole oxidation-state cell.
pub open spec fn spec_ox_cell(s: Seq<char>) -> Seq<i8> {
    spec_ox_tokens(split_commas(s, seq![]))
}

// ---------------------------------------------------------------------------
// Executable parsing
// ---------------------------------------------------------------------------
#[verifier::loop_isolation(false)]
fn parse_ox_token(v: &Vec<char>, from: usize, to: usize) -> (r: Option<i8>)
    requires
        from <= to <= v@.len(),
    ensures
        r == spec_ox_token(v@.subrange(from as int, to as int)),
{
    let ghost tok = v@.subrange(from as int, to as int);
    let (lo, hi) = trim_range(v, from, to);
    let ghost t = trim(tok);
    assert(v@.subrange(lo as int, hi as int) == t);
    if lo == hi {
        return None;
    }
    assert(t[0] == v@[lo as int]);
    let c0 = v[lo];
    let neg = c0 == '-';
    if !(c0 == '-' || c0 == '+' || c0 == '0') {
        return None;
    }
    // scan the digit prefix of the magnitude, stopping early once the value
    // can no longer fit a signed byte
    let ghost d = t.skip(1);
    assert(d =~= v@.subrange(lo + 1, hi as int));
    let mut k: usize = lo + 1;
    let mut acc: u32 = 0;
    proof {
        assert(d.take(0) =~= Seq::<char>::empty());
    }
    while k < hi && exec_is_digit(v[k])
        invariant
            lo + 1 <= k <= hi <= v@.len(),
            d == v@.subrange(lo + 1, hi as int),
            forall|j: int| 0 <= j < k - lo - 1 ==> is_digit(#[trigger] d[j]),
            acc == digits_val(d.take(k - lo - 1)),
            acc <= 128,
        decreases hi - k,
    {
        let c = v[k];
        assert(d[k - lo - 1] == v@[k as int]);
        let dv = (c as u32) - 48;
        assert(d.take(k - lo).drop_last() =~= d.take(k - lo - 1));
        assert(d.take(k - lo).last() == d[k - lo - 1]);
        let next = acc * 10 + dv;
        if next > 128 {
            proof {
                // the prefix scanned so far already exceeds every magnitude a
                // signed byte can hold, so the full magnitude does too
                let ghost p = digit_prefix_len(d) as int;
                lemma_digit_prefix(d);
                assert(is_digit(d[k - lo - 1]));
                assert(k - lo <= p) by {
                    if p < k - lo {
                        assert(!is_digit(d[p]));
                    }
                }
                assert(next == digits_val(d.take(k - lo)));
                assert(forall|j: int| 0 <= j < p ==> is_digit(#[trigger] d.take(p)[j]));
                assert(crate::text::all_digits(d.take(p)));
                lemma_digits_val_prefix(d.take(p), k - lo);
                assert(d.take(p).take(k - lo) =~= d.take(k - lo));
                assert(token_magnitude(t) == digits_val(d.take(p)));
                assert(token_magnitude(t) >= next);
            }
            return None;
        }
        acc = next;
        k = k + 1;
    }
    proof {
        // the scan stopped exactly at the end of the digit prefix
        let ghost p = digit_prefix_len(d) as int;
        lemma_digit_prefix(d);
        assert(k - lo - 1 <= p) by {
            if p < k - lo - 1 {
                assert(!is_digit(d[p]));
            }
        }
        if k < hi {
            assert(d[k - lo - 1] == v@[k as int]);
            assert(!is_digit(d[k - lo - 1]));
            assert(p == k - lo - 1);
        } else {
            assert(p <= d.len());
            assert(p == k - lo - 1);
        }
        assert(token_magnitude(t) == acc);
    }
    if neg {
        let m = acc as i32;
        Some((0 - m) as i8)
    } else {
        if acc > 127 {
            return None;
        }
        Some(acc as i8)
    }
}

/// Parses one oxidation-state cell into the list of states it denotes, in
/// order, skipping malformed tokens.
pub fn parse_oxidation_cell(cell: &str) -> (r: Vec<i8>)
    ensures
        r@ == spec_ox_cell(cell@),
{
    let v = crate::text::str_to_chars(cell);
    let n = v.len();
    // token boundaries: tokens are the maximal comma-free runs
    let mut out: Vec<i8> = Vec::new();
    let mut start: usize = 0;
    let mut i: usize = 0;
    proof {
        assert(v@.skip(0) =~= v@);
        assert(v@.subrange(0, 0) =~= Seq::<char>::empty());
        assert(out@ + spec_ox_tokens(split_commas(v@, seq![])) =~= spec_ox_tokens(
            split_commas(v@, seq![]),
        ));
    }
    while i < n
        invariant
            start <= i <= n,
            n == v@.len(),
            v@ == cell@,
            spec_ox_cell(cell@) == out@ + spec_ox_tokens(
                split_commas(v@.skip(i as int), v@.subrange(start as int, i as int)),
            ),
        decreases n - i,
    {
        let c = v[i];
        let ghost acc = v@.subrange(start as int, i as int);
        proof {
            assert(v@.skip(i as int)[0] == v@[i as int]);
            assert(v@.skip(i as int).skip(1) =~= v@.skip(i + 1));
        }
        if c == ',' {
            let ghost toks = split_commas(v@.skip(i + 1), seq![]);
            let ghost tokval = (match spec_ox_token(acc) {
                Some(x) => seq![x],
                None => Seq::<i8>::empty(),
            });
            proof {
                assert(split_commas(v@.skip(i as int), acc) == seq![acc] + toks);
                lemma_ox_tokens_cons(acc, toks);
                assert(out@ + (tokval + spec_ox_tokens(toks)) =~= (out@ + tokval)
                    + spec_ox_tokens(toks));
            }
            let ghost out0 = out@;
            match parse_ox_token(&v, start, i) {
                Some(val) => {
                    out.push(val);
                    proof {
                        assert(out@ =~= out0 + tokval);
                    }
                }
                None => {
                    proof {
                        assert(out@ =~= out0 + tokval);
                    }
                }
            }
            start = i + 1;
            proof {
                assert(v@.subrange(start as int, start as int) =~= Seq::<char>::empty());
            }
        } else {
            proof {
                assert(acc.push(v@[i as int]) =~= v@.subrange(start as int, i + 1));
            }
        }
        i = i + 1;
    }
    let ghost lastok = v@.subrange(start as int, n as int);
    let ghost tokval = (match spec_ox_token(lastok) {
        Some(x) => seq![x],
        None => Seq::<i8>::empty(),
    });
    proof {
        assert(v@.skip(n as int) =~= Seq::<char>::empty());
        assert(split_commas(v@.skip(n as int), lastok) == seq![lastok]);
        lemma_ox_tokens_cons(lastok, Seq::<Seq<char>>::empty());
        assert(seq![lastok] + Seq::<Seq<char>>::empty() =~= seq![lastok]);
        assert(spec_ox_tokens(Seq::<Seq<char>>::empty()) == Seq::<i8>::empty());
        assert(tokval + Seq::<i8>::empty() =~= tokval);
        assert(spec_ox_tokens(seq![lastok]) == tokval);
    }
    let ghost out0 = out@;
    match parse_ox_token(&v, start, n) {
        Some(val) => {
            out.push(val);
            proof {
                assert(out@ =~= out0 + tokval);
            }
        }
        None => {
            proof {
                assert(out@ =~= out0 + tokval);
            }
        }
    }
    out
}

/// Prepending a finished token: its states come first.
proof fn lemma_ox_tokens_cons(t: Seq<char>, toks: Seq<Seq<char>>)
    ensures
        spec_ox_tokens(seq![t] + toks) == (match spec_ox_token(t) {
            Some(v) => seq![v],
            None => seq![],
        }) + spec_ox_tokens(toks),
    decreases toks.len(),
{
    if toks.len() == 0 {
        assert(seq![t] + toks =~= seq![t]);
        assert(spec_ox_tokens(seq![t]) == spec_ox_tokens(seq![t].drop_last()) + match spec_ox_token(
            t,
        ) {
            Some(v) => seq![v],
            None => seq![],
        });
        assert(seq![t].drop_last() =~= Seq::<Seq<char>>::empty());
        assert((match spec_ox_token(t) {
            Some(v) => seq![v],
            None => seq![],
        }) + spec_ox_tokens(toks) =~= spec_ox_tokens(seq![t]));
    } else {
        let all = seq![t] + toks;
        assert(all.drop_last() =~= seq![t] + toks.drop_last());
        assert(all.last() == toks.last());
        lemma_ox_tokens_cons(t, toks.drop_last());
        assert(spec_ox_tokens(all) =~= (match spec_ox_token(t) {
            Some(v) => seq![v],
            None => seq![],
        }) + spec_ox_tokens(toks));
    }
}

} // verus!
