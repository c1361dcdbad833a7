//! The TEXT segment: a delimited key/value dictionary and its typed,
//! schema-aware accessors.
//!
//! The segment's first byte is the delimiter its producer chose.  After it,
//! the segment is a delimiter-separated run of tokens; a doubled delimiter
//! inside a token stands for one literal delimiter byte.  Consecutive tokens
//! pair up into keys and values, a trailing unpaired token is discarded, and
//! when a key repeats its last occurrence wins.

use vstd::prelude::*;

verus! {

use vstd::utf8::{decode_utf8, encode_utf8, valid_utf8};
use crate::data::{Byteord, DataType};
use crate::error::FlowError;
use crate::strutil::{dec_str, dec_val, is_digits, parse_u32_chars, parse_u64_chars, str_eq,
    u32_to_string, utf8_string};

/// The tokens read from a TEXT body when the token text `cur` is already
/// open and `rest` is still unread.
///
/// A single delimiter ends the open token, a doubled delimiter writes one
/// literal delimiter byte into it, and a nonempty token left open at the end
/// of the body still counts.
pub open spec fn tok_acc(cur: Seq<u8>, rest: Seq<u8>, d: u8) -> Seq<Seq<u8>>
    decreases rest.len(),
{
    if rest.len() == 0 {
        if cur.len() == 0 {
            Seq::empty()
        } else {
            seq![cur]
        }
    } else if rest[0] == d {
        if rest.len() >= 2 && rest[1] == d {
            tok_acc(cur.push(d), rest.skip(2), d)
        } else {
            seq![cur] + tok_acc(Seq::<u8>::empty(), rest.skip(1), d)
        }
    } else {
        tok_acc(cur.push(rest[0]), rest.skip(1), d)
    }
}

/// The tokens of a TEXT body, everything after the delimiter byte.
pub open spec fn tokens_of(body: Seq<u8>, d: u8) -> Seq<Seq<u8>> {
    tok_acc(Seq::<u8>::empty(), body, d)
}

/// Splits a TEXT segment into its tokens, reading the delimiter from the
/// first byte.
fn split_tokens(bytes: &Vec<u8>) -> (r: Vec<Vec<u8>>)
    requires
        bytes@.len() > 0,
    ensures
        r@.map_values(|t: Vec<u8>| t@) == tokens_of(bytes@.skip(1), bytes@[0]),
{
    let ghost whole = tokens_of(bytes@.skip(1), bytes@[0]);
    let d = bytes[0];
    let n = bytes.len();
    let mut i: usize = 1;
    let mut cur: Vec<u8> = Vec::new();
    let mut out: Vec<Vec<u8>> = Vec::new();
    while i < n
        invariant
            1 <= i <= n,
            n == bytes@.len(),
            d == bytes@[0],
            whole == tokens_of(bytes@.skip(1), d),
            out@.map_values(|t: Vec<u8>| t@) + tok_acc(cur@, bytes@.skip(i as int), d)
                =~= whole,
        decreases n - i,
    {
        let b = bytes[i];
        let ghost rest = bytes@.skip(i as int);
        proof {
            assert(rest[0] == bytes@[i as int]);
        }
        if b == d {
            if i + 1 < n && bytes[i + 1] == d {
                proof {
                    assert(rest[1] == bytes@[i + 1]);
                    assert(rest.skip(2) =~= bytes@.skip(i + 2));
                }
                cur.push(d);
                i += 2;
            } else {
                proof {
                    assert(rest.len() >= 2 ==> rest[1] == bytes@[i + 1]);
                    assert(rest.skip(1) =~= bytes@.skip(i + 1));
                    assert(tok_acc(cur@, rest, d) =~= seq![cur@] + tok_acc(
                        Seq::<u8>::empty(),
                        rest.skip(1),
                        d,
                    ));
                }
                let ghost old_out = out@;
                let ghost old_cur = cur@;
                out.push(cur);
                cur = Vec::new();
                i += 1;
                proof {
                    assert(out@.map_values(|t: Vec<u8>| t@) =~= old_out.map_values(
                        |t: Vec<u8>| t@,
                    ).push(old_cur));
                    assert(out@.map_values(|t: Vec<u8>| t@) + tok_acc(
                        cur@,
                        bytes@.skip(i as int),
                        d,
                    ) =~= old_out.map_values(|t: Vec<u8>| t@) + (seq![old_cur] + tok_acc(
                        Seq::<u8>::empty(),
                        bytes@.skip(i as int),
                        d,
                    )));
                }
            }
        } else {
            proof {
                assert(rest.skip(1) =~= bytes@.skip(i + 1));
            }
            cur.push(b);
            i += 1;
        }
    }
    proof {
        assert(bytes@.skip(n as int) =~= Seq::<u8>::empty());
    }
    if cur.len() > 0 {
        let ghost old_out = out@;
        let ghost old_cur = cur@;
        out.push(cur);
        proof {
            assert(out@.map_values(|t: Vec<u8>| t@) =~= old_out.map_values(
                |t: Vec<u8>| t@,
            ).push(old_cur));
            assert(out@.map_values(|t: Vec<u8>| t@) =~= old_out.map_values(|t: Vec<u8>| t@)
                + tok_acc(old_cur, Seq::<u8>::empty(), d));
        }
    }
    out
}

/// Consecutive tokens paired into key and value; a trailing unpaired token
/// is discarded.
pub open spec fn pair_tokens(toks: Seq<Seq<u8>>) -> Seq<(Seq<u8>, Seq<u8>)>
    decreases toks.len(),
{
    if toks.len() < 2 {
        Seq::empty()
    } else {
        seq![(toks[0], toks[1])] + pair_tokens(toks.skip(2))
    }
}

/// Every key and every value among the byte pairs is valid UTF-8.
pub open spec fn pairs_utf8_ok(prs: Seq<(Seq<u8>, Seq<u8>)>) -> bool {
    forall|i: int|
        0 <= i < prs.len() ==> valid_utf8((#[trigger] prs[i]).0) && valid_utf8(prs[i].1)
}

/// The mapping the byte pairs spell, a later occurrence of a key winning.
pub open spec fn dict_of_pairs(prs: Seq<(Seq<u8>, Seq<u8>)>) -> Map<Seq<char>, Seq<char>>
    decreases prs.len(),
{
    if prs.len() == 0 {
        Map::empty()
    } else {
        dict_of_pairs(prs.drop_last()).insert(
            decode_utf8(prs.last().0),
            decode_utf8(prs.last().1),
        )
    }
}

/// The key/value byte pairs of a whole TEXT segment.
pub open spec fn text_pairs(bytes: Seq<u8>) -> Seq<(Seq<u8>, Seq<u8>)> {
    if bytes.len() == 0 {
        Seq::empty()
    } else {
        pair_tokens(tokens_of(bytes.skip(1), bytes[0]))
    }
}

/// The dictionary a whole TEXT segment spells.
pub open spec fn text_dict(bytes: Seq<u8>) -> Map<Seq<char>, Seq<char>> {
    dict_of_pairs(text_pairs(bytes))
}

/// Whether every key and value of the TEXT segment decodes as UTF-8.
pub open spec fn text_utf8_ok(bytes: Seq<u8>) -> bool {
    pairs_utf8_ok(text_pairs(bytes))
}

/// The character-level entries behind a vector of string pairs.
pub open spec fn entries_of(ps: Seq<(String, String)>) -> Seq<(Seq<char>, Seq<char>)> {
    ps.map_values(|p: (String, String)| (p.0@, p.1@))
}

/// No two entries share a key.
pub open spec fn distinct_keys(es: Seq<(Seq<char>, Seq<char>)>) -> bool {
    forall|i: int, j: int| 0 <= i < j < es.len() ==> (#[trigger] es[i]).0 != (#[trigger] es[j]).0
}

/// The mapping a run of entries spells, a later entry winning.
pub open spec fn map_of_entries(es: Seq<(Seq<char>, Seq<char>)>) -> Map<Seq<char>, Seq<char>>
    decreases es.len(),
{
    if es.len() == 0 {
        Map::empty()
    } else {
        map_of_entries(es.drop_last()).insert(es.last().0, es.last().1)
    }
}

/// A key is in the mapping exactly when some entry carries it.
pub proof fn lemma_map_of_entries_contains(es: Seq<(Seq<char>, Seq<char>)>, k: Seq<char>)
    ensures
        map_of_entries(es).contains_key(k) <==> exists|i: int|
            0 <= i < es.len() && (#[trigger] es[i]).0 == k,
    decreases es.len(),
{
    if es.len() > 0 {
        lemma_map_of_entries_contains(es.drop_last(), k);
        if es.last().0 == k {
            assert(es[es.len() - 1].0 == k);
        } else if map_of_entries(es).contains_key(k) {
            let i = choose|i: int| 0 <= i < es.drop_last().len() && (#[trigger] es.drop_last()[i]).0 == k;
            assert(es[i].0 == k);
        } else {
            assert(forall|i: int|
                0 <= i < es.len() - 1 ==> (#[trigger] es[i]).0 == es.drop_last()[i].0);
        }
    }
}

/// With distinct keys, each entry's key maps to that entry's value.
pub proof fn lemma_map_of_entries_value(es: Seq<(Seq<char>, Seq<char>)>, i: int)
    requires
        distinct_keys(es),
        0 <= i < es.len(),
    ensures
        map_of_entries(es).contains_key(es[i].0),
        map_of_entries(es)[es[i].0] == es[i].1,
    decreases es.len(),
{
    if i == es.len() - 1 {
        assert(es.last() == es[i]);
    } else {
        assert(forall|a: int, b: int|
            0 <= a < b < es.drop_last().len() ==> (#[trigger] es.drop_last()[a]).0 != (
            #[trigger] es.drop_last()[b]).0);
        lemma_map_of_entries_value(es.drop_last(), i);
        assert(es.drop_last()[i] == es[i]);
        assert(es[i].0 != es.last().0);
    }
}

/// Overwriting the entry that holds a key inserts into the mapping.
pub proof fn lemma_map_of_entries_update(es: Seq<(Seq<char>, Seq<char>)>, i: int, v: Seq<char>)
    requires
        distinct_keys(es),
        0 <= i < es.len(),
    ensures
        map_of_entries(es.update(i, (es[i].0, v))) == map_of_entries(es).insert(es[i].0, v),
    decreases es.len(),
{
    let es2 = es.update(i, (es[i].0, v));
    if i == es.len() - 1 {
        assert(es2.drop_last() =~= es.drop_last());
        assert(es2.last() == (es[i].0, v));
        assert(map_of_entries(es2) =~= map_of_entries(es).insert(es[i].0, v));
    } else {
        assert(forall|a: int, b: int|
            0 <= a < b < es.drop_last().len() ==> (#[trigger] es.drop_last()[a]).0 != (
            #[trigger] es.drop_last()[b]).0);
        assert(es2.drop_last() =~= es.drop_last().update(i, (es[i].0, v)));
        assert(es.drop_last()[i] == es[i]);
        lemma_map_of_entries_update(es.drop_last(), i, v);
        assert(es2.last() == es.last());
        assert(es[i].0 != es.last().0);
        assert(map_of_entries(es2) =~= map_of_entries(es).insert(es[i].0, v));
    }
}

/// Stores a pair, overwriting the entry of an equal key if one is present
/// and appending otherwise.
fn upsert(pairs: &mut Vec<(String, String)>, key: String, value: String)
    requires
        distinct_keys(entries_of(old(pairs)@)),
    ensures
        distinct_keys(entries_of(final(pairs)@)),
        map_of_entries(entries_of(final(pairs)@)) == map_of_entries(
            entries_of(old(pairs)@),
        ).insert(key@, value@),
{
    let ghost es = entries_of(pairs@);
    let n = pairs.len();
    let mut i: usize = 0;
    while i < n
        invariant
            n == pairs@.len(),
            i <= n,
            pairs@ == old(pairs)@,
            es == entries_of(pairs@),
            distinct_keys(es),
            forall|j: int| 0 <= j < i ==> (#[trigger] es[j]).0 != key@,
        decreases n - i,
    {
        if str_eq(pairs[i].0.as_str(), key.as_str()) {
            proof {
                assert(es[i as int].0 == key@);
                lemma_map_of_entries_update(es, i as int, value@);
            }
            pairs[i] = (key, value);
            proof {
                assert(entries_of(pairs@) =~= es.update(i as int, (es[i as int].0, value@)));
                assert(distinct_keys(entries_of(pairs@)));
            }
            return;
        }
        i += 1;
    }
    proof {
        assert forall|j: int| 0 <= j < es.len() implies (#[trigger] es[j]).0 != key@ by {}
        if map_of_entries(es).contains_key(key@) {
            lemma_map_of_entries_contains(es, key@);
        }
    }
    pairs.push((key, value));
    proof {
        let es2 = entries_of(pairs@);
        assert(es2 =~= es.push((key@, value@)));
        assert(es2.drop_last() =~= es);
        assert(distinct_keys(es2));
        assert(map_of_entries(es2) == map_of_entries(es).insert(key@, value@));
    }
}

/// Reads a whole TEXT segment into key/value pairs with distinct keys.
///
/// The delimiter is the segment's first byte; an empty segment holds no
/// pairs.  Fails only when a key or value is not valid UTF-8.
pub fn parse_pairs(bytes: &Vec<u8>) -> (r: Result<Vec<(String, String)>, FlowError>)
    ensures
        r is Ok <==> text_utf8_ok(bytes@),
        r matches Ok(ps) ==> distinct_keys(entries_of(ps@)) && map_of_entries(entries_of(ps@))
            == text_dict(bytes@),
        r is Err ==> r == Err::<Vec<(String, String)>, FlowError>(FlowError::IoError),
{
    let mut out: Vec<(String, String)> = Vec::new();
    if bytes.len() == 0 {
        proof {
            assert(entries_of(out@) =~= Seq::<(Seq<char>, Seq<char>)>::empty());
            assert(map_of_entries(entries_of(out@)) =~= text_dict(bytes@));
        }
        return Ok(out);
    }
    let toks = split_tokens(bytes);
    let ghost tviews = toks@.map_values(|t: Vec<u8>| t@);
    let ghost prs = pair_tokens(tviews);
    let n = toks.len();
    proof {
        assert(tviews.skip(0) =~= tviews);
        assert(prs.take(0) + pair_tokens(tviews) =~= pair_tokens(tviews));
        assert(entries_of(out@) =~= Seq::<(Seq<char>, Seq<char>)>::empty());
        assert(map_of_entries(entries_of(out@)) =~= dict_of_pairs(prs.take(0)));
    }
    let mut j: usize = 0;
    while j + j + 1 < n
        invariant
            n == toks@.len(),
            tviews == toks@.map_values(|t: Vec<u8>| t@),
            prs == text_pairs(bytes@),
            prs == pair_tokens(tviews),
            j + j <= n,
            j <= prs.len(),
            prs =~= prs.take(j as int) + pair_tokens(tviews.skip(j + j)),
            forall|k: int|
                0 <= k < j ==> valid_utf8((#[trigger] prs[k]).0) && valid_utf8(prs[k].1),
            distinct_keys(entries_of(out@)),
            map_of_entries(entries_of(out@)) == dict_of_pairs(prs.take(j as int)),
        decreases n - j,
    {
        let ghost rest = tviews.skip(j + j);
        proof {
            assert(rest[0] == tviews[j + j]);
            assert(rest[1] == tviews[j + j + 1]);
            assert(pair_tokens(rest)[0] == (tviews[j + j], tviews[j + j + 1]));
            assert(prs[j as int] == (prs.take(j as int) + pair_tokens(rest))[j as int]);
            assert(prs[j as int] == (tviews[j + j], tviews[j + j + 1]));
            assert(tviews[j + j] == toks@[j + j]@);
            assert(tviews[j + j + 1] == toks@[j + j + 1]@);
        }
        let key = match utf8_string(&toks[j + j]) {
            Some(k) => k,
            None => {
                proof {
                    assert(!valid_utf8(prs[j as int].0));
                    assert(!pairs_utf8_ok(prs));
                }
                return Err(FlowError::IoError);
            },
        };
        let value = match utf8_string(&toks[j + j + 1]) {
            Some(v) => v,
            None => {
                proof {
                    assert(!valid_utf8(prs[j as int].1));
                    assert(!pairs_utf8_ok(prs));
                }
                return Err(FlowError::IoError);
            },
        };
        upsert(&mut out, key, value);
        proof {
            assert(prs.take(j + 1).drop_last() =~= prs.take(j as int));
            assert(prs.take(j + 1).last() == prs[j as int]);
            assert(rest.skip(2) =~= tviews.skip(j + j + 2));
            assert(pair_tokens(rest) =~= seq![prs[j as int]] + pair_tokens(tviews.skip(
                j + j + 2,
            )));
            assert(prs =~= prs.take(j + 1) + pair_tokens(tviews.skip(j + j + 2)));
        }
        j += 1;
    }
    proof {
        assert(pair_tokens(tviews.skip(j + j)) =~= Seq::<(Seq<u8>, Seq<u8>)>::empty());
        assert(prs =~= prs.take(j as int));
        assert(prs.take(j as int).len() == j);
        assert(pairs_utf8_ok(prs));
    }
    Ok(out)
}

/// The dictionary holds the key with a value of unsigned decimal text whose
/// value fits in `u32`.
pub open spec fn has_u32(m: Map<Seq<char>, Seq<char>>, key: Seq<char>) -> bool {
    m.contains_key(key) && is_digits(m[key]) && dec_val(m[key]) <= u32::MAX
}

/// The key `$P{i}{suffix}` of a per-parameter field.
pub open spec fn pkey(i: int, suffix: Seq<char>) -> Seq<char> {
    "$P"@ + dec_str(i) + suffix
}

/// The key `$G{i}S` of a gate's name.
pub open spec fn gkey(i: int) -> Seq<char> {
    "$G"@ + dec_str(i) + "S"@
}

/// An optional string field holds the value under the key exactly when the
/// dictionary holds the key.
pub open spec fn opt_field(m: Map<Seq<char>, Seq<char>>, key: Seq<char>, f: Option<String>) -> bool {
    match f {
        Some(v) => m.contains_key(key) && v@ == m[key],
        None => !m.contains_key(key),
    }
}

/// An optional numeric field holds the value under the key exactly when the
/// dictionary holds the key.
pub open spec fn opt_u32_field(m: Map<Seq<char>, Seq<char>>, key: Seq<char>, f: Option<u32>) -> bool {
    match f {
        Some(v) => has_u32(m, key) && v == dec_val(m[key]),
        None => !m.contains_key(key),
    }
}

/// One measured channel, the derived view of the `$Pn…` keys of index `n`.
#[derive(Debug, PartialEq, Eq)]
pub struct Parameter {
    /// index
    pub index: u32,
    /// `$PnB`
    pub bits: u32,
    /// `$PnE`
    pub amplification_type: Option<String>,
    /// `$PnN`
    pub short_name: String,
    /// `$PnR`
    pub range: u32,
    /// `$PnF`
    pub optical_filter_name: Option<String>,
    /// `$PnG`
    pub amplifier_gain: Option<u32>,
    /// `$PnL`
    pub excitation_wavelengths: Option<String>,
    /// `$PnO`
    pub excitation_power: Option<String>,
    /// `$PnP`
    pub emitted_light_collected: Option<String>,
    /// `$PnS`
    pub name: Option<String>,
    /// `$PnT`
    pub detector_type: Option<String>,
    /// `$PnV`
    pub detector_voltage: Option<String>,
}

/// One gate, the derived view of the `$Gn…` keys of index `n`.
#[derive(Debug, PartialEq, Eq)]
pub struct Gate {
    /// index
    pub index: u32,
    /// `$GnS`
    pub name: Option<String>,
}

/// The optional operator, experiment and instrument keywords in one view.
#[derive(Debug, PartialEq, Eq)]
pub struct Metadata {
    /// `$OP`
    pub operator: Option<String>,
    /// `$EXP`
    pub experiment_director: Option<String>,
    /// `$FIL`
    pub file_name: Option<String>,
    /// `$CYT`
    pub fc_name: Option<String>,
    /// `$CYTSN`
    pub fc_serial: Option<String>,
    /// `$INST`
    pub institute: Option<String>,
    /// `$SRC`
    pub source: Option<String>,
    /// `$SYS`
    pub system: Option<String>,
}

/// Parameter `i` reads without fault from the dictionary: its `$PnB`,
/// `$PnN` and `$PnR` fields are present and numeric where they must be, and
/// `$PnG`, when present, is numeric.
pub open spec fn param_ok(m: Map<Seq<char>, Seq<char>>, i: int) -> bool {
    &&& has_u32(m, pkey(i, "B"@))
    &&& m.contains_key(pkey(i, "N"@))
    &&& has_u32(m, pkey(i, "R"@))
    &&& m.contains_key(pkey(i, "G"@)) ==> has_u32(m, pkey(i, "G"@))
}

/// Parameter `p` carries exactly the `$P{i}…` values of the dictionary.
pub open spec fn param_wf(m: Map<Seq<char>, Seq<char>>, p: Parameter, i: int) -> bool {
    &&& p.index == i
    &&& has_u32(m, pkey(i, "B"@)) && p.bits == dec_val(m[pkey(i, "B"@)])
    &&& opt_field(m, pkey(i, "E"@), p.amplification_type)
    &&& m.contains_key(pkey(i, "N"@)) && p.short_name@ == m[pkey(i, "N"@)]
    &&& has_u32(m, pkey(i, "R"@)) && p.range == dec_val(m[pkey(i, "R"@)])
    &&& opt_field(m, pkey(i, "F"@), p.optical_filter_name)
    &&& opt_u32_field(m, pkey(i, "G"@), p.amplifier_gain)
    &&& opt_field(m, pkey(i, "L"@), p.excitation_wavelengths)
    &&& opt_field(m, pkey(i, "O"@), p.excitation_power)
    &&& opt_field(m, pkey(i, "P"@), p.emitted_light_collected)
    &&& opt_field(m, pkey(i, "S"@), p.name)
    &&& opt_field(m, pkey(i, "T"@), p.detector_type)
    &&& opt_field(m, pkey(i, "V"@), p.detector_voltage)
}

/// Gate `g` carries exactly the `$G{i}S` value of the dictionary.
pub open spec fn gate_wf(m: Map<Seq<char>, Seq<char>>, g: Gate, i: int) -> bool {
    &&& g.index == i
    &&& opt_field(m, gkey(i), g.name)
}

/// What `$BYTEORD` text declares: `Some(true)` for big-endian,
/// `Some(false)` for little-endian, `None` for anything else.
pub open spec fn spec_byteord(v: Seq<char>) -> Option<bool> {
    if v == "4,3,2,1"@ || v == "2,1"@ {
        Some(true)
    } else if v == "1,2,3,4"@ || v == "1,2"@ {
        Some(false)
    } else {
        None
    }
}

/// What `$DATATYPE` text declares, if anything.
pub open spec fn spec_data_type(v: Seq<char>) -> Option<DataType> {
    if v == "I"@ {
        Some(DataType::Int)
    } else if v == "F"@ {
        Some(DataType::Float)
    } else if v == "D"@ {
        Some(DataType::Double)
    } else {
        None
    }
}

/// Builds the key `{prefix}{index}{suffix}`, the shape the per-parameter
/// and per-gate keywords use.
pub fn indexed_key(prefix: &str, index: u32, suffix: &str) -> (r: String)
    ensures
        r@ == prefix@ + dec_str(index as int) + suffix@,
{
    let mut s = prefix.to_owned();
    let digits = u32_to_string(index);
    s.append(digits.as_str());
    s.append(suffix);
    s
}

/// The TEXT segment as an ordered dictionary of keyword entries.
///
/// Keys are case-sensitive and unique; when the segment repeats a key, the
/// last occurrence is the one kept.
#[derive(Debug)]
pub struct Text {
    pairs: Vec<(String, String)>,
}

impl View for Text {
    type V = Map<Seq<char>, Seq<char>>;

    open spec fn view(&self) -> Map<Seq<char>, Seq<char>> {
        map_of_entries(self.entries())
    }
}

impl Text {
    /// No two entries of the dictionary share a key.
    #[verifier::type_invariant]
    spec fn wf(self) -> bool {
        distinct_keys(entries_of(self.pairs@))
    }

    /// The entries in their stored order.
    pub closed spec fn entries(&self) -> Seq<(Seq<char>, Seq<char>)> {
        entries_of(self.pairs@)
    }

    /// Reads a TEXT segment.
    ///
    /// Fails only when a key or value of the segment is not valid UTF-8.
    pub fn new(bytes: &Vec<u8>) -> (r: Result<Text, FlowError>)
        ensures
            r is Ok <==> text_utf8_ok(bytes@),
            r matches Ok(t) ==> t@ == text_dict(bytes@),
            r is Err ==> r == Err::<Text, FlowError>(FlowError::IoError),
    {
        match parse_pairs(bytes) {
            Ok(ps) => Ok(Text { pairs: ps }),
            Err(e) => Err(e),
        }
    }

    /// Builds a dictionary from the given pairs, later pairs winning over
    /// earlier ones with an equal key.
    pub fn from_pairs(pairs: &Vec<(String, String)>) -> (r: Text)
        ensures
            r@ == map_of_entries(entries_of(pairs@)),
    {
        let ghost all = entries_of(pairs@);
        let n = pairs.len();
        let mut out: Vec<(String, String)> = Vec::new();
        let mut i: usize = 0;
        proof {
            assert(entries_of(out@) =~= Seq::<(Seq<char>, Seq<char>)>::empty());
        }
        while i < n
            invariant
                n == pairs@.len(),
                i <= n,
                all == entries_of(pairs@),
                distinct_keys(entries_of(out@)),
                map_of_entries(entries_of(out@)) == map_of_entries(all.take(i as int)),
            decreases n - i,
        {
            let key = pairs[i].0.clone();
            let value = pairs[i].1.clone();
            upsert(&mut out, key, value);
            proof {
                assert(all.take(i + 1).drop_last() =~= all.take(i as int));
                assert(all.take(i + 1).last() == all[i as int]);
            }
            i += 1;
        }
        proof {
            assert(all.take(n as int) =~= all);
        }
        Text { pairs: out }
    }

    /// Looks a key up, returning the stored value.
    pub fn get(&self, key: &str) -> (r: Option<&String>)
        ensures
            r matches Some(v) ==> self@.contains_key(key@) && v@ == self@[key@],
            r is None ==> !self@.contains_key(key@),
    {
        proof {
            use_type_invariant(&*self);
        }
        let ghost es = self.entries();
        let n = self.pairs.len();
        let mut i: usize = 0;
        while i < n
            invariant
                n == self.pairs@.len(),
                i <= n,
                es == self.entries(),
                distinct_keys(es),
                forall|j: int| 0 <= j < i ==> (#[trigger] es[j]).0 != key@,
            decreases n - i,
        {
            if str_eq(self.pairs[i].0.as_str(), key) {
                proof {
                    assert(es[i as int].0 == key@);
                    lemma_map_of_entries_value(es, i as int);
                }
                return Some(&self.pairs[i].1);
            }
            i += 1;
        }
        proof {
            if self@.contains_key(key@) {
                lemma_map_of_entries_contains(es, key@);
            }
        }
        None
    }

    /// The stored pairs, in order and with distinct keys.
    pub fn pairs(&self) -> (r: &Vec<(String, String)>)
        ensures
            entries_of(r@) == self.entries(),
            distinct_keys(self.entries()),
    {
        proof {
            use_type_invariant(&*self);
        }
        &self.pairs
    }

    /// Looks an indexed key `{prefix}{index}{suffix}` up.
    pub fn get_indexed(&self, prefix: &str, index: u32, suffix: &str) -> (r: Option<&String>)
        ensures
            ({
                let key = prefix@ + dec_str(index as int) + suffix@;
                &&& r matches Some(v) ==> self@.contains_key(key) && v@ == self@[key]
                &&& r is None ==> !self@.contains_key(key)
            }),
    {
        let key = indexed_key(prefix, index, suffix);
        self.get(key.as_str())
    }

    /// Looks a key up that a valid document must carry.
    pub fn require(&self, key: &str) -> (r: Result<&String, FlowError>)
        ensures
            r is Ok <==> self@.contains_key(key@),
            r matches Ok(v) ==> v@ == self@[key@],
            r matches Err(e) ==> (e matches FlowError::MissingRequiredKeyword(k) && k@ == key@),
    {
        match self.get(key) {
            Some(v) => Ok(v),
            None => Err(FlowError::MissingRequiredKeyword(key.to_owned())),
        }
    }

    /// Reads a required keyword as an unsigned integer.
    pub fn required_uint(&self, key: &str) -> (r: Result<u64, FlowError>)
        ensures
            r is Ok <==> self@.contains_key(key@) && is_digits(self@[key@]) && dec_val(
                self@[key@],
            ) <= u64::MAX,
            r matches Ok(v) ==> v == dec_val(self@[key@]),
            !self@.contains_key(key@) ==> (r matches Err(e) && e matches
                FlowError::MissingRequiredKeyword(k) && k@ == key@),
            r matches Err(e) ==> (self@.contains_key(key@) ==> (e matches
                FlowError::InvalidKeywordValue(k) && k@ == key@)),
    {
        match self.get(key) {
            None => Err(FlowError::MissingRequiredKeyword(key.to_owned())),
            Some(v) => match parse_u64_chars(v.as_str()) {
                Some(n) => Ok(n),
                None => Err(FlowError::InvalidKeywordValue(key.to_owned())),
            },
        }
    }

    /// Reads a required keyword as an unsigned 32-bit integer.
    fn required_u32(&self, key: &str) -> (r: Result<u32, FlowError>)
        ensures
            r is Ok <==> has_u32(self@, key@),
            r matches Ok(v) ==> v == dec_val(self@[key@]),
            !self@.contains_key(key@) ==> (r matches Err(e) && e matches
                FlowError::MissingRequiredKeyword(k) && k@ == key@),
            r matches Err(e) ==> (self@.contains_key(key@) ==> (e matches
                FlowError::InvalidKeywordValue(k) && k@ == key@)),
    {
        match self.get(key) {
            None => Err(FlowError::MissingRequiredKeyword(key.to_owned())),
            Some(v) => match parse_u32_chars(v.as_str()) {
                Some(n) => Ok(n),
                None => Err(FlowError::InvalidKeywordValue(key.to_owned())),
            },
        }
    }

    /// Copies the value under a key out of the dictionary, if one is there.
    fn optional_value(&self, key: &str) -> (r: Option<String>)
        ensures
            opt_field(self@, key@, r),
    {
        match self.get(key) {
            Some(v) => Some(v.clone()),
            None => None,
        }
    }

    /// Reads an optional keyword as an unsigned 32-bit integer; a present
    /// but non-numeric value is a fault.
    fn optional_u32(&self, key: &str) -> (r: Result<Option<u32>, FlowError>)
        ensures
            r is Ok <==> (self@.contains_key(key@) ==> has_u32(self@, key@)),
            r matches Ok(o) ==> opt_u32_field(self@, key@, o),
            r matches Err(e) ==> (e matches FlowError::InvalidKeywordValue(k) && k@ == key@),
    {
        match self.get(key) {
            None => Ok(None),
            Some(v) => match parse_u32_chars(v.as_str()) {
                Some(n) => Ok(Some(n)),
                None => Err(FlowError::InvalidKeywordValue(key.to_owned())),
            },
        }
    }

    /// `$TOT`: how many events the DATA segment holds.
    pub fn total_events(&self) -> (r: Result<u32, FlowError>)
        ensures
            r is Ok <==> has_u32(self@, "$TOT"@),
            r matches Ok(v) ==> v == dec_val(self@["$TOT"@]),
            !self@.contains_key("$TOT"@) ==> (r matches Err(e) && e matches
                FlowError::MissingRequiredKeyword(k) && k@ == "$TOT"@),
            r matches Err(e) ==> (self@.contains_key("$TOT"@) ==> (e matches
                FlowError::InvalidKeywordValue(k) && k@ == "$TOT"@)),
    {
        self.required_u32("$TOT")
    }

    /// `$PAR`: how many parameters one event holds.
    pub fn parameters_number(&self) -> (r: Result<u32, FlowError>)
        ensures
            r is Ok <==> has_u32(self@, "$PAR"@),
            r matches Ok(v) ==> v == dec_val(self@["$PAR"@]),
            !self@.contains_key("$PAR"@) ==> (r matches Err(e) && e matches
                FlowError::MissingRequiredKeyword(k) && k@ == "$PAR"@),
            r matches Err(e) ==> (self@.contains_key("$PAR"@) ==> (e matches
                FlowError::InvalidKeywordValue(k) && k@ == "$PAR"@)),
    {
        self.required_u32("$PAR")
    }

    /// `$GATE`: how many gates the document declares, if it says.
    pub fn gates_number(&self) -> (r: Result<Option<u32>, FlowError>)
        ensures
            r is Ok <==> (self@.contains_key("$GATE"@) ==> has_u32(self@, "$GATE"@)),
            r matches Ok(o) ==> opt_u32_field(self@, "$GATE"@, o),
            r matches Err(e) ==> (e matches FlowError::InvalidKeywordValue(k) && k@ == "$GATE"@),
    {
        self.optional_u32("$GATE")
    }

    /// The optional operator, experiment and instrument keywords.
    pub fn metadata(&self) -> (r: Metadata)
        ensures
            opt_field(self@, "$OP"@, r.operator),
            opt_field(self@, "$EXP"@, r.experiment_director),
            opt_field(self@, "$FIL"@, r.file_name),
            opt_field(self@, "$CYT"@, r.fc_name),
            opt_field(self@, "$CYTSN"@, r.fc_serial),
            opt_field(self@, "$INST"@, r.institute),
            opt_field(self@, "$SRC"@, r.source),
            opt_field(self@, "$SYS"@, r.system),
    {
        Metadata {
            operator: self.optional_value("$OP"),
            experiment_director: self.optional_value("$EXP"),
            file_name: self.optional_value("$FIL"),
            fc_name: self.optional_value("$CYT"),
            fc_serial: self.optional_value("$CYTSN"),
            institute: self.optional_value("$INST"),
            source: self.optional_value("$SRC"),
            system: self.optional_value("$SYS"),
        }
    }

    /// The gates `1..=$GATE`, none when `$GATE` is absent.
    pub fn gates(&self) -> (r: Result<Vec<Gate>, FlowError>)
        ensures
            r is Ok <==> (self@.contains_key("$GATE"@) ==> has_u32(self@, "$GATE"@)),
            r matches Ok(gs) ==> gs@.len() == (if has_u32(self@, "$GATE"@) {
                dec_val(self@["$GATE"@])
            } else {
                0
            }) && forall|k: int| 0 <= k < gs@.len() ==> gate_wf(self@, #[trigger] gs@[k], k + 1),
            r matches Err(e) ==> (e matches FlowError::InvalidKeywordValue(k) && k@ == "$GATE"@),
    {
        let count: u32 = match self.gates_number() {
            Ok(Some(n)) => n,
            Ok(None) => 0,
            Err(e) => {
                return Err(e);
            },
        };
        let mut out: Vec<Gate> = Vec::new();
        let mut i: u64 = 1;
        while i <= count as u64
            invariant
                i <= count as u64 + 1,
                1 <= i,
                out@.len() == i - 1,
                forall|k: int| 0 <= k < out@.len() ==> gate_wf(self@, #[trigger] out@[k], k + 1),
            decreases count as u64 + 1 - i,
        {
            let idx = i as u32;
            let name = self.optional_value(indexed_key("$G", idx, "S").as_str());
            out.push(Gate { index: idx, name });
            i += 1;
        }
        Ok(out)
    }

    /// The parameters `1..=$PAR`, each read from its `$Pn…` keys.
    ///
    /// Fails when `$PAR` itself, a required per-parameter field (`$PnB`,
    /// `$PnN`, `$PnR`) or a present `$PnG` does not read.
    pub fn parameters(&self) -> (r: Result<Vec<Parameter>, FlowError>)
        ensures
            r is Ok <==> has_u32(self@, "$PAR"@) && (forall|i: int|
                1 <= i <= dec_val(self@["$PAR"@]) ==> param_ok(self@, i)),
            r matches Ok(ps) ==> ps@.len() == dec_val(self@["$PAR"@]) && forall|k: int|
                0 <= k < ps@.len() ==> param_wf(self@, #[trigger] ps@[k], k + 1),
            !self@.contains_key("$PAR"@) ==> (r matches Err(e) && e matches
                FlowError::MissingRequiredKeyword(k) && k@ == "$PAR"@),
            self@.contains_key("$PAR"@) && !has_u32(self@, "$PAR"@) ==> (r matches Err(e) && e
                matches FlowError::InvalidKeywordValue(k) && k@ == "$PAR"@),
    {
        let count: u32 = match self.parameters_number() {
            Ok(n) => n,
            Err(e) => {
                return Err(e);
            },
        };
        let mut out: Vec<Parameter> = Vec::new();
        let mut i: u64 = 1;
        while i <= count as u64
            invariant
                has_u32(self@, "$PAR"@),
                count == dec_val(self@["$PAR"@]),
                1 <= i <= count as u64 + 1,
                out@.len() == i - 1,
                forall|k: int| 0 <= k < out@.len() ==> param_wf(self@, #[trigger] out@[k], k + 1),
            decreases count as u64 + 1 - i,
        {
            let idx = i as u32;
            let bits = match self.required_u32(indexed_key("$P", idx, "B").as_str()) {
                Ok(v) => v,
                Err(e) => {
                    proof {
                        assert(!param_ok(self@, i as int));
                    }
                    return Err(e);
                },
            };
            let short_name = match self.get(indexed_key("$P", idx, "N").as_str()) {
                Some(v) => v.clone(),
                None => {
                    proof {
                        assert(!param_ok(self@, i as int));
                    }
                    return Err(FlowError::MissingRequiredKeyword(
                        indexed_key("$P", idx, "N"),
                    ));
                },
            };
            let range = match self.required_u32(indexed_key("$P", idx, "R").as_str()) {
                Ok(v) => v,
                Err(e) => {
                    proof {
                        assert(!param_ok(self@, i as int));
                    }
                    return Err(e);
                },
            };
            let amplifier_gain = match self.optional_u32(indexed_key("$P", idx, "G").as_str()) {
                Ok(o) => o,
                Err(e) => {
                    proof {
                        assert(!param_ok(self@, i as int));
                    }
                    return Err(e);
                },
            };
            let p = Parameter {
                index: idx,
                bits,
                amplification_type: self.optional_value(indexed_key("$P", idx, "E").as_str()),
                short_name,
                range,
                optical_filter_name: self.optional_value(indexed_key("$P", idx, "F").as_str()),
                amplifier_gain,
                excitation_wavelengths: self.optional_value(
                    indexed_key("$P", idx, "L").as_str(),
                ),
                excitation_power: self.optional_value(indexed_key("$P", idx, "O").as_str()),
                emitted_light_collected: self.optional_value(
                    indexed_key("$P", idx, "P").as_str(),
                ),
                name: self.optional_value(indexed_key("$P", idx, "S").as_str()),
                detector_type: self.optional_value(indexed_key("$P", idx, "T").as_str()),
                detector_voltage: self.optional_value(indexed_key("$P", idx, "V").as_str()),
            };
            proof {
                assert(param_wf(self@, p, i as int));
            }
            out.push(p);
            i += 1;
        }
        proof {
            assert forall|i: int| 1 <= i <= dec_val(self@["$PAR"@]) implies param_ok(
                self@,
                i,
            ) by {
                assert(param_wf(self@, out@[i - 1], i));
            }
        }
        Ok(out)
    }

    /// `$DATATYPE`: the type of the values in the DATA segment.
    pub fn data_type(&self) -> (r: Result<DataType, FlowError>)
        ensures
            r is Ok <==> self@.contains_key("$DATATYPE"@) && spec_data_type(
                self@["$DATATYPE"@],
            ) is Some,
            r matches Ok(d) ==> spec_data_type(self@["$DATATYPE"@]) == Some(d),
            !self@.contains_key("$DATATYPE"@) ==> (r matches Err(e) && e matches
                FlowError::MissingRequiredKeyword(k) && k@ == "$DATATYPE"@),
            self@.contains_key("$DATATYPE"@) && spec_data_type(self@["$DATATYPE"@]) is None
                ==> r == Err::<DataType, FlowError>(FlowError::InvalidDataType),
    {
        let v = match self.get("$DATATYPE") {
            Some(v) => v,
            None => {
                return Err(FlowError::MissingRequiredKeyword("$DATATYPE".to_owned()));
            },
        };
        if str_eq(v.as_str(), "I") {
            Ok(DataType::Int)
        } else if str_eq(v.as_str(), "F") {
            Ok(DataType::Float)
        } else if str_eq(v.as_str(), "D") {
            Ok(DataType::Double)
        } else {
            Err(FlowError::InvalidDataType)
        }
    }

    /// Writes the dictionary back to the delimited TEXT format with the
    /// given delimiter byte, doubling every delimiter byte that occurs
    /// inside a key or value.
    pub fn to_delimited(&self, delim: u8) -> (r: Vec<u8>)
        ensures
            r@ == encode_entries(self.entries(), delim),
    {
        proof {
            use_type_invariant(&*self);
        }
        let ghost es = self.entries();
        let mut out: Vec<u8> = Vec::new();
        out.push(delim);
        proof {
            assert(es.skip(0) =~= es);
            assert(out@ =~= seq![delim] + Seq::<u8>::empty());
            assert(out@ + enc_body(es.skip(0), delim) =~= seq![delim] + enc_body(es, delim));
        }
        let n = self.pairs.len();
        let mut i: usize = 0;
        while i < n
            invariant
                n == self.pairs@.len(),
                i <= n,
                es == self.entries(),
                out@ + enc_body(es.skip(i as int), delim) == seq![delim] + enc_body(es, delim),
            decreases n - i,
        {
            let ghost rest = es.skip(i as int);
            proof {
                assert(rest[0] == es[i as int]);
                assert(rest.skip(1) =~= es.skip(i + 1));
                assert(es[i as int] == (self.pairs@[i as int].0@, self.pairs@[i as int].1@));
            }
            let kb = self.pairs[i].0.as_str().as_bytes_vec();
            let vb = self.pairs[i].1.as_str().as_bytes_vec();
            escape_into(&mut out, &kb, delim);
            out.push(delim);
            escape_into(&mut out, &vb, delim);
            out.push(delim);
            proof {
                assert(enc_body(rest, delim) =~= escape(encode_utf8(rest[0].0), delim)
                    + seq![delim] + escape(encode_utf8(rest[0].1), delim) + seq![delim]
                    + enc_body(rest.skip(1), delim));
                assert(out@ + enc_body(es.skip(i + 1), delim) =~= seq![delim] + enc_body(
                    es,
                    delim,
                ));
            }
            i += 1;
        }
        proof {
            assert(es.skip(n as int) =~= Seq::<(Seq<char>, Seq<char>)>::empty());
            assert(out@ + Seq::<u8>::empty() =~= out@);
        }
        out
    }

    /// `$BYTEORD`: the byte order of the DATA segment.
    pub fn byteord(&self) -> (r: Result<Byteord, FlowError>)
        ensures
            r is Ok <==> self@.contains_key("$BYTEORD"@) && spec_byteord(
                self@["$BYTEORD"@],
            ) is Some,
            r matches Ok(b) ==> spec_byteord(self@["$BYTEORD"@]) == Some(b.spec_big())
                && b.spec_text() == self@["$BYTEORD"@],
            !self@.contains_key("$BYTEORD"@) ==> (r matches Err(e) && e matches
                FlowError::MissingRequiredKeyword(k) && k@ == "$BYTEORD"@),
            self@.contains_key("$BYTEORD"@) && spec_byteord(self@["$BYTEORD"@]) is None ==> r
                == Err::<Byteord, FlowError>(FlowError::InvalidByteOrder),
    {
        let v = match self.get("$BYTEORD") {
            Some(v) => v,
            None => {
                return Err(FlowError::MissingRequiredKeyword("$BYTEORD".to_owned()));
            },
        };
        if str_eq(v.as_str(), "4,3,2,1") || str_eq(v.as_str(), "2,1") {
            Ok(Byteord::BigEndian(v.clone()))
        } else if str_eq(v.as_str(), "1,2,3,4") || str_eq(v.as_str(), "1,2") {
            Ok(Byteord::LittleEndian(v.clone()))
        } else {
            Err(FlowError::InvalidByteOrder)
        }
    }
}

/// The token bytes with every delimiter byte doubled.
pub open spec fn escape(t: Seq<u8>, d: u8) -> Seq<u8>
    decreases t.len(),
{
    if t.len() == 0 {
        Seq::empty()
    } else if t[0] == d {
        seq![d, d] + escape(t.skip(1), d)
    } else {
        seq![t[0]] + escape(t.skip(1), d)
    }
}

/// The body of the delimited TEXT format for the entries: for each entry
/// its escaped key, a delimiter, its escaped value, a delimiter.
pub open spec fn enc_body(es: Seq<(Seq<char>, Seq<char>)>, d: u8) -> Seq<u8>
    decreases es.len(),
{
    if es.len() == 0 {
        Seq::empty()
    } else {
        escape(encode_utf8(es[0].0), d) + seq![d] + escape(encode_utf8(es[0].1), d) + seq![d]
            + enc_body(es.skip(1), d)
    }
}

/// The delimited TEXT format of the entries: the delimiter byte, then the
/// body.
pub open spec fn encode_entries(es: Seq<(Seq<char>, Seq<char>)>, d: u8) -> Seq<u8> {
    seq![d] + enc_body(es, d)
}

/// An entry component that survives the delimited format: its encoding is
/// nonempty and does not begin with the delimiter byte.
pub open spec fn token_safe(t: Seq<char>, d: u8) -> bool {
    encode_utf8(t).len() > 0 && encode_utf8(t)[0] != d
}

/// Every key and value of the entries is [`token_safe`].
pub open spec fn delimiter_safe(es: Seq<(Seq<char>, Seq<char>)>, d: u8) -> bool {
    forall|i: int|
        0 <= i < es.len() ==> token_safe((#[trigger] es[i]).0, d) && token_safe(es[i].1, d)
}

/// Appends the escaped form of a token.
fn escape_into(out: &mut Vec<u8>, t: &Vec<u8>, d: u8)
    ensures
        final(out)@ == old(out)@ + escape(t@, d),
{
    let n = t.len();
    proof {
        assert(t@.skip(0) =~= t@);
    }
    let mut i: usize = 0;
    while i < n
        invariant
            n == t@.len(),
            i <= n,
            out@ + escape(t@.skip(i as int), d) == old(out)@ + escape(t@, d),
        decreases n - i,
    {
        let ghost rest = t@.skip(i as int);
        proof {
            assert(rest[0] == t@[i as int]);
            assert(rest.skip(1) =~= t@.skip(i + 1));
        }
        let b = t[i];
        let ghost before = out@;
        if b == d {
            out.push(d);
            out.push(d);
            proof {
                assert(out@ =~= before + seq![d, d]);
                assert(out@ + escape(t@.skip(i + 1), d) =~= before + escape(rest, d));
            }
        } else {
            out.push(b);
            proof {
                assert(out@ =~= before + seq![b]);
                assert(out@ + escape(t@.skip(i + 1), d) =~= before + escape(rest, d));
            }
        }
        i += 1;
    }
    proof {
        assert(t@.skip(n as int) =~= Seq::<u8>::empty());
        assert(out@ + Seq::<u8>::empty() =~= out@);
    }
}

/// The token list the delimited format of the entries should read back as.
pub open spec fn toks_of_entries(es: Seq<(Seq<char>, Seq<char>)>) -> Seq<Seq<u8>>
    decreases es.len(),
{
    if es.len() == 0 {
        Seq::empty()
    } else {
        seq![encode_utf8(es[0].0), encode_utf8(es[0].1)] + toks_of_entries(es.skip(1))
    }
}

/// The entries as byte pairs, each side UTF-8-encoded.
pub open spec fn bpairs_of_entries(es: Seq<(Seq<char>, Seq<char>)>) -> Seq<(Seq<u8>, Seq<u8>)> {
    es.map_values(|e: (Seq<char>, Seq<char>)| (encode_utf8(e.0), encode_utf8(e.1)))
}

/// Reading escaped bytes moves them, unescaped, into the open token.
proof fn lemma_tok_acc_escape(cur: Seq<u8>, t: Seq<u8>, rest: Seq<u8>, d: u8)
    ensures
        tok_acc(cur, escape(t, d) + rest, d) == tok_acc(cur + t, rest, d),
    decreases t.len(),
{
    if t.len() == 0 {
        assert(escape(t, d) + rest =~= rest);
        assert(cur + t =~= cur);
    } else if t[0] == d {
        let s = escape(t, d) + rest;
        assert(s[0] == d);
        assert(s[1] == d);
        assert(s.skip(2) =~= escape(t.skip(1), d) + rest);
        lemma_tok_acc_escape(cur.push(d), t.skip(1), rest, d);
        assert(cur.push(d) + t.skip(1) =~= cur + t);
    } else {
        let s = escape(t, d) + rest;
        assert(s[0] == t[0]);
        if s.len() >= 2 && s[1] == d && s[0] == d {
            assert(false);
        }
        assert(s.skip(1) =~= escape(t.skip(1), d) + rest);
        lemma_tok_acc_escape(cur.push(t[0]), t.skip(1), rest, d);
        assert(cur.push(t[0]) + t.skip(1) =~= cur + t);
    }
}

/// A single delimiter not followed by another closes the open token.
proof fn lemma_tok_acc_boundary(cur: Seq<u8>, rest: Seq<u8>, d: u8)
    requires
        rest.len() == 0 || rest[0] != d,
    ensures
        tok_acc(cur, seq![d] + rest, d) == seq![cur] + tok_acc(Seq::<u8>::empty(), rest, d),
{
    let s = seq![d] + rest;
    assert(s[0] == d);
    assert(s.len() >= 2 ==> s[1] == rest[0]);
    assert(s.skip(1) =~= rest);
}

/// A nonempty token that does not begin with the delimiter keeps its first
/// byte once escaped.
proof fn lemma_escape_head(t: Seq<u8>, d: u8)
    requires
        t.len() > 0,
        t[0] != d,
    ensures
        escape(t, d).len() > 0,
        escape(t, d)[0] == t[0],
{
}

/// The delimited body of the entries reads back as exactly their tokens.
proof fn lemma_tokens_of_enc_body(es: Seq<(Seq<char>, Seq<char>)>, d: u8)
    requires
        delimiter_safe(es, d),
    ensures
        tok_acc(Seq::<u8>::empty(), enc_body(es, d), d) == toks_of_entries(es),
    decreases es.len(),
{
    if es.len() == 0 {
    } else {
        let k = encode_utf8(es[0].0);
        let v = encode_utf8(es[0].1);
        let b = enc_body(es.skip(1), d);
        assert(token_safe(es[0].0, d) && token_safe(es[0].1, d));
        lemma_escape_head(k, d);
        lemma_escape_head(v, d);
        let x1 = seq![d] + (escape(v, d) + (seq![d] + b));
        assert(enc_body(es, d) =~= escape(k, d) + x1);
        assert(Seq::<u8>::empty() + k =~= k);
        lemma_tok_acc_escape(Seq::<u8>::empty(), k, x1, d);
        let r1 = escape(v, d) + (seq![d] + b);
        assert(r1[0] == escape(v, d)[0]);
        lemma_tok_acc_boundary(k, r1, d);
        assert(Seq::<u8>::empty() + v =~= v);
        lemma_tok_acc_escape(Seq::<u8>::empty(), v, seq![d] + b, d);
        if es.skip(1).len() > 0 {
            let k1 = encode_utf8(es.skip(1)[0].0);
            assert(es.skip(1)[0] == es[1]);
            assert(token_safe(es[1].0, d));
            lemma_escape_head(k1, d);
            assert(b =~= escape(k1, d) + (seq![d] + (escape(encode_utf8(es.skip(1)[0].1), d)
                + (seq![d] + enc_body(es.skip(1).skip(1), d)))));
            assert(b[0] == k1[0]);
        }
        lemma_tok_acc_boundary(v, b, d);
        lemma_tokens_of_enc_body(es.skip(1), d);
        assert(tok_acc(Seq::<u8>::empty(), enc_body(es, d), d) =~= seq![k, v]
            + toks_of_entries(es.skip(1)));
        assert(toks_of_entries(es) =~= seq![k, v] + toks_of_entries(es.skip(1)));
    }
}

/// The tokens of the entries pair back into the entries' byte pairs.
proof fn lemma_pair_tokens_of_toks(es: Seq<(Seq<char>, Seq<char>)>)
    ensures
        pair_tokens(toks_of_entries(es)) == bpairs_of_entries(es),
    decreases es.len(),
{
    if es.len() == 0 {
        assert(pair_tokens(toks_of_entries(es)) =~= bpairs_of_entries(es));
    } else {
        let t = toks_of_entries(es);
        assert(t[0] == encode_utf8(es[0].0));
        assert(t[1] == encode_utf8(es[0].1));
        assert(t.skip(2) =~= toks_of_entries(es.skip(1)));
        lemma_pair_tokens_of_toks(es.skip(1));
        assert(pair_tokens(t) =~= bpairs_of_entries(es));
    }
}

/// Decoding the entries' byte pairs yields the entries' own mapping.
proof fn lemma_dict_of_bpairs(es: Seq<(Seq<char>, Seq<char>)>)
    ensures
        dict_of_pairs(bpairs_of_entries(es)) == map_of_entries(es),
    decreases es.len(),
{
    if es.len() == 0 {
        assert(dict_of_pairs(bpairs_of_entries(es)) =~= map_of_entries(es));
    } else {
        let bp = bpairs_of_entries(es);
        assert(bp.drop_last() =~= bpairs_of_entries(es.drop_last()));
        assert(bp.last() == (encode_utf8(es.last().0), encode_utf8(es.last().1)));
        vstd::utf8::encode_utf8_decode_utf8(es.last().0);
        vstd::utf8::encode_utf8_decode_utf8(es.last().1);
        lemma_dict_of_bpairs(es.drop_last());
        assert(dict_of_pairs(bp) =~= map_of_entries(es));
    }
}

/// Round trip: a dictionary written to the delimited TEXT format and read
/// back yields the same mapping.
///
/// This holds whenever every key and value is nonempty and does not begin
/// with the delimiter byte; an empty token, or one whose first byte is the
/// delimiter, cannot survive the format.
pub proof fn lemma_round_trip(t: Text, d: u8)
    requires
        delimiter_safe(t.entries(), d),
    ensures
        text_utf8_ok(encode_entries(t.entries(), d)),
        text_dict(encode_entries(t.entries(), d)) == t@,
{
    let es = t.entries();
    let bytes = encode_entries(es, d);
    assert(bytes[0] == d);
    assert(bytes.skip(1) =~= enc_body(es, d));
    lemma_tokens_of_enc_body(es, d);
    lemma_pair_tokens_of_toks(es);
    assert(text_pairs(bytes) == bpairs_of_entries(es));
    lemma_dict_of_bpairs(es);
    assert forall|i: int| 0 <= i < bpairs_of_entries(es).len() implies valid_utf8(
        (#[trigger] bpairs_of_entries(es)[i]).0,
    ) && valid_utf8(bpairs_of_entries(es)[i].1) by {
        vstd::utf8::encode_utf8_valid_utf8(es[i].0);
        vstd::utf8::encode_utf8_valid_utf8(es[i].1);
    }
}

} // verus!
