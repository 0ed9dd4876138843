//! The electron-configuration resolver. Shorthand such as `[Ne] 3s2 3p5`
//! expands to per-subshell occupancy counts: an optional bracketed reference
//! to a lighter element's symbol supplies the base configuration, and each
//! explicit `<shell><subshell><occupancy>` token overwrites one slot of a
//! copy of that base. Parsing stops at the first parenthesized annotation.
//! Elements are resolved in ascending atomic-number order, each resolved
//! configuration entering an explicit cache that later references read, so
//! no element is resolved twice; the cache lives only for one compilation.
use vstd::prelude::*;

use crate::error::CompileError;
use crate::ox::{digit_prefix_len, lemma_digit_prefix};
use crate::record::Record;
use crate::text::{
    digit_val, digits_val, exec_is_digit, is_digit, lemma_digits_val_nonneg,
    lemma_digits_val_prefix, str_to_chars,
};

verus! {

/// Resolved occupancy counts, one fixed-size array per subshell type,
/// indexed by shell number offset from the subshell's minimum allowed
/// shell: s covers shells 1-7, p covers 2-7, d covers 3-7, f covers 4-5.
#[derive(Clone, Copy, PartialEq, Eq, Debug, Hash)]
pub struct ElectronicConfiguration {
    pub s: [u8; 7],
    pub p: [u8; 6],
    pub d: [u8; 4],
    pub f: [u8; 2],
}

/// The mathematical shadow of a resolved configuration.
#[verifier::ext_equal]
pub struct ConfigModel {
    pub s: Seq<u8>,
    pub p: Seq<u8>,
    pub d: Seq<u8>,
    pub f: Seq<u8>,
}

impl View for ElectronicConfiguration {
    type V = ConfigModel;

    open spec fn view(&self) -> ConfigModel {
        ConfigModel { s: self.s@, p: self.p@, d: self.d@, f: self.f@ }
    }
}

impl DeepView for ElectronicConfiguration {
    type V = ConfigModel;

    open spec fn deep_view(&self) -> ConfigModel {
        self.view()
    }
}

pub open spec fn zero_model() -> ConfigModel {
    ConfigModel {
        s: Seq::new(7, |i: int| 0u8),
        p: Seq::new(6, |i: int| 0u8),
        d: Seq::new(4, |i: int| 0u8),
        f: Seq::new(2, |i: int| 0u8),
    }
}

/// The all-empty configuration every expansion without a reference starts
/// from.
pub fn zero_configuration() -> (c: ElectronicConfiguration)
    ensures
        c@ == zero_model(),
{
    let c = ElectronicConfiguration { s: [0u8; 7], p: [0u8; 6], d: [0u8; 4], f: [0u8; 2] };
    proof {
        assert(c.s@ =~= zero_model().s);
        assert(c.p@ =~= zero_model().p);
        assert(c.d@ =~= zero_model().d);
        assert(c.f@ =~= zero_model().f);
        assert(c@ =~= zero_model());
    }
    c
}

/// The minimum shell number a subshell type allows.
pub open spec fn shell_offset(letter: char) -> int {
    if letter == 's' {
        1
    } else if letter == 'p' {
        2
    } else if letter == 'd' {
        3
    } else {
        4
    }
}

/// How many shells of a subshell type the tables carry.
pub open spec fn slot_count(letter: char) -> int {
    if letter == 's' {
        7
    } else if letter == 'p' {
        6
    } else if letter == 'd' {
        4
    } else {
        2
    }
}

/// One slot overwritten; tokens overwrite, they do not add.
pub open spec fn set_slot(m: ConfigModel, letter: char, slot: int, occ: u8) -> ConfigModel {
    if letter == 's' {
        ConfigModel { s: m.s.update(slot, occ), ..m }
    } else if letter == 'p' {
        ConfigModel { p: m.p.update(slot, occ), ..m }
    } else if letter == 'd' {
        ConfigModel { d: m.d.update(slot, occ), ..m }
    } else {
        ConfigModel { f: m.f.update(slot, occ), ..m }
    }
}

/// Overlays the whitespace-separated tokens of `s` onto `m`. A shell number
/// mapping outside its subshell's slots is fatal; so is a missing or unknown
/// subshell letter, or an occupancy count that cannot fit a byte.
pub open spec fn overlay_tokens(m: ConfigModel, s: Seq<char>) -> Result<ConfigModel, CompileError>
    decreases s.len(),
{
    if s.len() == 0 {
        Ok(m)
    } else if s[0] == ' ' {
        overlay_tokens(m, s.skip(1))
    } else if s[0] == '(' {
        Ok(m)
    } else {
        let nd0 = digit_prefix_len(s) as int;
        let nd = if nd0 > s.len() {
            s.len() as int
        } else {
            nd0
        };
        if nd == s.len() {
            Err(CompileError::ConfigurationMalformed)
        } else {
            let shell = digits_val(s.take(nd));
            let letter = s[nd];
            if letter == 's' || letter == 'p' || letter == 'd' || letter == 'f' {
                let od0 = digit_prefix_len(s.skip(nd + 1)) as int;
                let od = if od0 > s.len() - nd - 1 {
                    s.len() - nd - 1
                } else {
                    od0
                };
                let occ = digits_val(s.skip(nd + 1).take(od));
                let slot = shell - shell_offset(letter);
                if slot < 0 || slot >= slot_count(letter) {
                    Err(CompileError::ShellOutOfRange)
                } else if occ > 255 {
                    Err(CompileError::ConfigurationMalformed)
                } else {
                    overlay_tokens(set_slot(m, letter, slot, occ as u8), s.skip(nd + 1 + od))
                }
            } else {
                Err(CompileError::ConfigurationMalformed)
            }
        }
    }
}

/// The bracketed reference at the head of a shorthand string: its one- or
/// two-letter symbol and the rest of the string after the closing bracket.
pub open spec fn spec_ref(s: Seq<char>) -> Result<(Seq<char>, Seq<char>), CompileError> {
    if s.len() >= 3 && s[2] == ']' {
        Ok((s.subrange(1, 2), s.skip(3)))
    } else if s.len() >= 4 && s[3] == ']' {
        Ok((s.subrange(1, 3), s.skip(4)))
    } else {
        Err(CompileError::ConfigurationMalformed)
    }
}

/// The first record before index `i` (scanning up from `k`) whose symbol is
/// `sym`, or -1.
pub open spec fn find_sym_from(
    recs: Seq<(Seq<char>, Seq<char>)>,
    sym: Seq<char>,
    k: int,
    i: int,
) -> int
    decreases i - k,
{
    if k >= i {
        -1
    } else if recs[k].0 == sym {
        k
    } else {
        find_sym_from(recs, sym, k + 1, i)
    }
}

/// Resolution of record `i` given the configurations `prev` of all records
/// before it: the overlay base is the empty configuration, or the resolved
/// configuration of the referenced lighter element.
pub open spec fn spec_resolve_one(
    recs: Seq<(Seq<char>, Seq<char>)>,
    prev: Seq<ConfigModel>,
    i: int,
) -> Result<ConfigModel, CompileError> {
    let ec = recs[i].1;
    if ec.len() > 0 && ec[0] == '[' {
        match spec_ref(ec) {
            Err(e) => Err(e),
            Ok((sym, rest)) => {
                let j = find_sym_from(recs, sym, 0, i);
                if j < 0 {
                    Err(CompileError::UnknownConfigurationReference)
                } else {
                    overlay_tokens(prev[j], rest)
                }
            },
        }
    } else {
        overlay_tokens(zero_model(), ec)
    }
}

/// Resolution of the first `n` records in ascending order, each consulting
/// the cache of those before it; the first failure aborts.
pub open spec fn spec_resolved_seq(recs: Seq<(Seq<char>, Seq<char>)>, n: int) -> Result<
    Seq<ConfigModel>,
    CompileError,
>
    decreases n,
{
    if n <= 0 {
        Ok(seq![])
    } else {
        match spec_resolved_seq(recs, n - 1) {
            Err(e) => Err(e),
            Ok(prev) => match spec_resolve_one(recs, prev, n - 1) {
                Err(e) => Err(e),
                Ok(m) => Ok(prev.push(m)),
            },
        }
    }
}

/// What the resolver reads of each record: its symbol and its shorthand.
pub open spec fn rec_views(rs: Seq<Record>) -> Seq<(Seq<char>, Seq<char>)> {
    Seq::new(rs.len(), |i: int| (rs[i].symbol@, rs[i].electron_configuration@))
}

/// A failed resolution stays failed for every longer prefix.
proof fn lemma_resolved_seq_err(recs: Seq<(Seq<char>, Seq<char>)>, i: int, n: int)
    requires
        0 <= i <= n,
        spec_resolved_seq(recs, i) is Err,
    ensures
        spec_resolved_seq(recs, n) == spec_resolved_seq(recs, i),
    decreases n - i,
{
    if i < n {
        lemma_resolved_seq_err(recs, i, n - 1);
    }
}

// ---------------------------------------------------------------------------
// Executable scanning
// ---------------------------------------------------------------------------
/// Scans the digit prefix starting at `from`: its end position, and its
/// value unless that exceeds `cap`.
#[verifier::loop_isolation(false)]
fn scan_digits(v: &Vec<char>, from: usize, cap: u32) -> (r: (Option<u32>, usize))
    requires
        from <= v@.len(),
        cap <= 0xFFFF,
    ensures
        ({
            let d = v@.skip(from as int);
            let dp = digit_prefix_len(d) as int;
            &&& from + dp == r.1
            &&& from <= r.1 <= v@.len()
            &&& match r.0 {
                Some(x) => x == digits_val(d.take(dp)) && x <= cap,
                None => digits_val(d.take(dp)) > cap,
            }
        }),
{
    let ghost d = v@.skip(from as int);
    let mut k: usize = from;
    let mut acc: u32 = 0;
    let mut over = false;
    proof {
        assert(d.take(0) =~= Seq::<char>::empty());
    }
    while k < v.len() && exec_is_digit(v[k])
        invariant
            from <= k <= v@.len(),
            forall|j: int| 0 <= j < k - from ==> is_digit(#[trigger] d[j]),
            !over ==> acc == digits_val(d.take(k - from)) && acc <= cap,
            over ==> digits_val(d.take(k - from)) > cap,
        decreases v@.len() - k,
    {
        let c = v[k];
        proof {
            assert(d[k - from] == v@[k as int]);
            assert(d.take(k - from + 1).drop_last() =~= d.take(k - from));
            assert(d.take(k - from + 1).last() == d[k - from]);
        }
        let dv = (c as u32) - 48;
        if !over {
            let next = acc * 10 + dv;
            if next > cap {
                over = true;
            } else {
                acc = next;
            }
        } else {
            proof {
                let ghost p = d.take(k - from);
                assert(forall|j: int| 0 <= j < p.len() ==> is_digit(#[trigger] p[j]));
                lemma_digits_val_nonneg(p);
                assert(digits_val(d.take(k - from + 1)) == digits_val(p) * 10 + digit_val(
                    d[k - from],
                ));
            }
        }
        k = k + 1;
    }
    proof {
        lemma_digit_prefix(d);
        let ghost p = digit_prefix_len(d) as int;
        assert(k - from <= p) by {
            if p < k - from {
                assert(!is_digit(d[p]));
            }
        }
        if k < v@.len() {
            assert(d[k - from] == v@[k as int]);
            assert(p == k - from);
        } else {
            assert(p == k - from);
        }
    }
    if over {
        (None, k)
    } else {
        (Some(acc), k)
    }
}

/// Overlays the tokens of `v` from position `from` onto a copy of `base`.
#[verifier::loop_isolation(false)]
fn overlay(base: ElectronicConfiguration, v: &Vec<char>, from: usize) -> (r: Result<
    ElectronicConfiguration,
    CompileError,
>)
    requires
        from <= v@.len(),
    ensures
        match r {
            Ok(c) => overlay_tokens(base@, v@.skip(from as int)) == Ok::<
                ConfigModel,
                CompileError,
            >(c@),
            Err(e) => overlay_tokens(base@, v@.skip(from as int)) == Err::<
                ConfigModel,
                CompileError,
            >(e),
        },
{
    let mut cfg = base;
    let mut pos: usize = from;
    loop
        invariant
            from <= pos <= v@.len(),
            overlay_tokens(base@, v@.skip(from as int)) == overlay_tokens(
                cfg@,
                v@.skip(pos as int),
            ),
        decreases v@.len() - pos,
    {
        let ghost cur = v@.skip(pos as int);
        if pos >= v.len() {
            assert(cur.len() == 0);
            return Ok(cfg);
        }
        let c = v[pos];
        proof {
            assert(cur[0] == v@[pos as int]);
            assert(cur.skip(1) =~= v@.skip(pos + 1));
        }
        if c == ' ' {
            pos = pos + 1;
        } else if c == '(' {
            return Ok(cfg);
        } else {
            // shell number; anything above 8 is out of range for every
            // subshell type
            let (shell_opt, p1) = scan_digits(v, pos, 8);
            proof {
                lemma_digit_prefix(cur);
                assert(v@.skip(pos as int).take(p1 - pos) =~= cur.take(p1 - pos));
            }
            let ghost nd = p1 - pos;
            if p1 == v.len() {
                return Err(CompileError::ConfigurationMalformed);
            }
            let letter = v[p1];
            proof {
                assert(cur[nd as int] == v@[p1 as int]);
            }
            if letter == 's' || letter == 'p' || letter == 'd' || letter == 'f' {
                let (occ_opt, p2) = scan_digits(v, p1 + 1, 255);
                proof {
                    lemma_digit_prefix(v@.skip(p1 + 1));
                    assert(cur.skip(nd + 1) =~= v@.skip(p1 + 1));
                    assert(cur.skip(nd + 1).take(p2 - p1 - 1) =~= v@.skip(p1 + 1).take(
                        p2 - p1 - 1,
                    ));
                }
                let shell = match shell_opt {
                    Some(sh) => sh,
                    None => {
                        proof {
                            lemma_digits_val_nonneg(cur.take(nd as int));
                        }
                        return Err(CompileError::ShellOutOfRange);
                    }
                };
                let offset: u32 = if letter == 's' {
                    1
                } else if letter == 'p' {
                    2
                } else if letter == 'd' {
                    3
                } else {
                    4
                };
                let count: u32 = if letter == 's' {
                    7
                } else if letter == 'p' {
                    6
                } else if letter == 'd' {
                    4
                } else {
                    2
                };
                if shell < offset || shell - offset >= count {
                    return Err(CompileError::ShellOutOfRange);
                }
                let slot = (shell - offset) as usize;
                let occ = match occ_opt {
                    Some(oc) => oc,
                    None => {
                        return Err(CompileError::ConfigurationMalformed);
                    }
                };
                let ghost oldcfg = cfg@;
                let occ8 = occ as u8;
                if letter == 's' {
                    cfg.s[slot] = occ8;
                } else if letter == 'p' {
                    cfg.p[slot] = occ8;
                } else if letter == 'd' {
                    cfg.d[slot] = occ8;
                } else {
                    cfg.f[slot] = occ8;
                }
                proof {
                    assert(cfg@ =~= set_slot(oldcfg, letter, slot as int, occ8));
                    assert(cur.skip(nd + 1 + (p2 - p1 - 1)) =~= v@.skip(p2 as int));
                }
                pos = p2;
            } else {
                return Err(CompileError::ConfigurationMalformed);
            }
        }
    }
}

// ---------------------------------------------------------------------------
// Resolution over the full record set
// ---------------------------------------------------------------------------
/// Resolves every record's shorthand in ascending order, threading the cache
/// of already-resolved configurations; the records must already stand in
/// ascending atomic-number order, so every reference points backwards.
#[verifier::loop_isolation(false)]
pub fn resolve_configurations(records: &Vec<Record>) -> (r: Result<
    Vec<ElectronicConfiguration>,
    CompileError,
>)
    ensures
        match r {
            Ok(cfgs) => cfgs@.len() == records@.len() && spec_resolved_seq(
                rec_views(records@),
                records@.len() as int,
            ) == Ok::<Seq<ConfigModel>, CompileError>(cfgs.deep_view()),
            Err(e) => spec_resolved_seq(rec_views(records@), records@.len() as int) == Err::<
                Seq<ConfigModel>,
                CompileError,
            >(e),
        },
{
    let ghost rv = rec_views(records@);
    let n = records.len();
    let mut out: Vec<ElectronicConfiguration> = Vec::new();
    let mut i: usize = 0;
    proof {
        assert(out.deep_view() =~= Seq::<ConfigModel>::empty());
    }
    while i < n
        invariant
            i <= n,
            n == records@.len(),
            out@.len() == i,
            spec_resolved_seq(rv, i as int) == Ok::<Seq<ConfigModel>, CompileError>(
                out.deep_view(),
            ),
        decreases n - i,
    {
        let ghost prev = out.deep_view();
        let ev = str_to_chars(records[i].electron_configuration.as_str());
        let ghost ec = rv[i as int].1;
        assert(ev@ == ec);
        let mut base = zero_configuration();
        let mut start: usize = 0;
        let mut referenced = false;
        if ev.len() > 0 && ev[0] == '[' {
            referenced = true;
            let mut sym: Vec<char> = Vec::new();
            if ev.len() >= 3 && ev[2] == ']' {
                sym.push(ev[1]);
                start = 3;
                proof {
                    assert(sym@ =~= ec.subrange(1, 2));
                }
            } else if ev.len() >= 4 && ev[3] == ']' {
                sym.push(ev[1]);
                sym.push(ev[2]);
                start = 4;
                proof {
                    assert(sym@ =~= ec.subrange(1, 3));
                }
            } else {
                proof {
                    lemma_resolved_seq_err(rv, i + 1, n as int);
                }
                return Err(CompileError::ConfigurationMalformed);
            }
            // the cache lookup: scan the already-resolved lighter elements
            // for the referenced symbol
            let mut k: usize = 0;
            let mut found = false;
            while k < i && !found
                invariant
                    0 <= k <= i,
                    i <= records@.len(),
                    !found ==> find_sym_from(rv, sym@, 0, i as int) == find_sym_from(
                        rv,
                        sym@,
                        k as int,
                        i as int,
                    ),
                    found ==> k < i && find_sym_from(rv, sym@, 0, i as int) == k as int,
                decreases i - k, (if found { 0int } else { 1int }),
            {
                if crate::text::chars_eq_str(&sym, records[k].symbol.as_str()) {
                    found = true;
                    assert(rv[k as int].0 == sym@);
                } else {
                    assert(rv[k as int].0 != sym@);
                    k = k + 1;
                }
            }
            if !found {
                proof {
                    lemma_resolved_seq_err(rv, i + 1, n as int);
                }
                return Err(CompileError::UnknownConfigurationReference);
            }
            base = out[k];
            proof {
                assert(out.deep_view()[k as int] == out@[k as int]@);
            }
        }
        let rest_result = overlay(base, &ev, start);
        proof {
            if referenced {
                assert(ev@.skip(start as int) =~= (match spec_ref(ec) {
                    Ok((s2, r2)) => r2,
                    Err(_) => ev@.skip(start as int),
                }));
            } else {
                assert(ev@.skip(0) =~= ec);
            }
        }
        match rest_result {
            Ok(cfgm) => {
                out.push(cfgm);
                proof {
                    assert(out.deep_view() =~= prev.push(cfgm@));
                }
            }
            Err(e) => {
                proof {
                    lemma_resolved_seq_err(rv, i + 1, n as int);
                }
                return Err(e);
            }
        }
        i = i + 1;
    }
    Ok(out)
}

} // verus!
